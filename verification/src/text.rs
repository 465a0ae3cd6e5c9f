//! Text helpers: the order in which `str` values compare, and the decimal
//! writing of integers.

use vstd::prelude::*;

verus! {

/// `a` comes no later than `b` in the order of `str`'s comparison: the first
/// character where they differ decides, by its code point, and a prefix comes
/// before any longer text.
pub open spec fn text_le(a: Seq<char>, b: Seq<char>) -> bool
    decreases a.len(),
{
    if a.len() == 0 {
        true
    } else if b.len() == 0 {
        false
    } else if a[0] != b[0] {
        (a[0] as int) < (b[0] as int)
    } else {
        text_le(a.drop_first(), b.drop_first())
    }
}

/// Every text comes no later than itself.
pub proof fn lemma_text_le_reflexive(a: Seq<char>)
    ensures
        text_le(a, a),
    decreases a.len(),
{
    if a.len() > 0 {
        lemma_text_le_reflexive(a.drop_first());
    }
}

/// Any two texts are ordered one way or the other.
pub proof fn lemma_text_le_total(a: Seq<char>, b: Seq<char>)
    ensures
        text_le(a, b) || text_le(b, a),
    decreases a.len(),
{
    if a.len() > 0 && b.len() > 0 {
        if a[0] == b[0] {
            lemma_text_le_total(a.drop_first(), b.drop_first());
        } else {
            assert((a[0] as int) != (b[0] as int));
        }
    }
}

/// Texts ordered both ways are equal.
pub proof fn lemma_text_le_antisymmetric(a: Seq<char>, b: Seq<char>)
    requires
        text_le(a, b),
        text_le(b, a),
    ensures
        a == b,
    decreases a.len(),
{
    if a.len() > 0 && b.len() > 0 {
        if a[0] == b[0] {
            lemma_text_le_antisymmetric(a.drop_first(), b.drop_first());
            assert(a =~= seq![a[0]] + a.drop_first());
            assert(b =~= seq![b[0]] + b.drop_first());
        }
    } else {
        assert(a.len() == 0 && b.len() == 0);
        assert(a =~= b);
    }
}

/// The order of texts is transitive.
pub proof fn lemma_text_le_transitive(a: Seq<char>, b: Seq<char>, c: Seq<char>)
    requires
        text_le(a, b),
        text_le(b, c),
    ensures
        text_le(a, c),
    decreases a.len(),
{
    if a.len() > 0 && b.len() > 0 && c.len() > 0 {
        if a[0] == b[0] && b[0] == c[0] {
            lemma_text_le_transitive(a.drop_first(), b.drop_first(), c.drop_first());
        }
    }
}

/// `a` comes no later than `b` in lexicographic order, said without
/// recursion: either `a` is a prefix of `b`, or at the first position where
/// they differ the character of `a` has the smaller code point.
pub open spec fn lexicographically_le(a: Seq<char>, b: Seq<char>) -> bool {
    ||| (a.len() <= b.len() && a == b.take(a.len() as int))
    ||| exists|i: int|
        0 <= i < a.len() && i < b.len() && a.take(i) == b.take(i) && (#[trigger] a[i] as int) < (
        b[i] as int)
}

/// Law: the text order compares whole texts, character by character: it is
/// exactly the lexicographic order by code point, a prefix first.
pub proof fn lemma_text_le_is_lexicographic(a: Seq<char>, b: Seq<char>)
    ensures
        text_le(a, b) == lexicographically_le(a, b),
    decreases a.len(),
{
    if a.len() == 0 {
        assert(a =~= b.take(0));
    } else if b.len() == 0 {
        assert(!(a.len() <= b.len()));
    } else if a[0] != b[0] {
        assert(a.take(0) =~= b.take(0));
        if (a[0] as int) < (b[0] as int) {
        } else {
            assert(!(a.len() <= b.len() && a == b.take(a.len() as int))) by {
                if a.len() <= b.len() {
                    assert(b.take(a.len() as int)[0] == b[0]);
                    assert(a[0] != b.take(a.len() as int)[0]);
                }
            }
            assert forall|i: int|
                0 <= i < a.len() && i < b.len() && a.take(i) == b.take(i) implies !((
                #[trigger] a[i] as int) < (b[i] as int)) by {
                if i > 0 {
                    assert(a.take(i)[0] == b.take(i)[0]);
                }
            }
        }
    } else {
        let a1 = a.drop_first();
        let b1 = b.drop_first();
        lemma_text_le_is_lexicographic(a1, b1);
        if a1.len() <= b1.len() && a1 == b1.take(a1.len() as int) {
            assert forall|i: int| 0 <= i < a.len() implies a[i] == b.take(a.len() as int)[i] by {
                if i > 0 {
                    assert(a[i] == a1[i - 1]);
                    assert(a1[i - 1] == b1.take(a1.len() as int)[i - 1]);
                }
            }
            assert(a =~= b.take(a.len() as int));
        }
        if a.len() <= b.len() && a == b.take(a.len() as int) {
            assert(a1 =~= b1.take(a1.len() as int));
        }
        if exists|i: int|
            0 <= i < a1.len() && i < b1.len() && a1.take(i) == b1.take(i) && (#[trigger] a1[i] as int)
                < (b1[i] as int) {
            let i = choose|i: int|
                0 <= i < a1.len() && i < b1.len() && a1.take(i) == b1.take(i) && (#[trigger] a1[i] as int)
                    < (b1[i] as int);
            assert(a.take(i + 1) =~= seq![a[0]] + a1.take(i));
            assert(b.take(i + 1) =~= seq![b[0]] + b1.take(i));
            assert(a[i + 1] == a1[i]);
        }
        if exists|i: int|
            0 <= i < a.len() && i < b.len() && a.take(i) == b.take(i) && (#[trigger] a[i] as int) < (
            b[i] as int) {
            let i = choose|i: int|
                0 <= i < a.len() && i < b.len() && a.take(i) == b.take(i) && (#[trigger] a[i] as int) < (
                b[i] as int);
            assert(i > 0);
            assert(a1.take(i - 1) =~= a.take(i).drop_first());
            assert(b1.take(i - 1) =~= b.take(i).drop_first());
            assert(a1[i - 1] == a[i]);
        }
    }
}

/// Compares two texts the way `str` does.
pub fn text_le_exec(a: &str, b: &str) -> (le: bool)
    ensures
        le == text_le(a@, b@),
{
    let la = a.unicode_len();
    let lb = b.unicode_len();
    let mut i: usize = 0;
    assert(a@.skip(0) =~= a@);
    assert(b@.skip(0) =~= b@);
    while i < la && i < lb
        invariant
            la == a@.len(),
            lb == b@.len(),
            i <= la,
            i <= lb,
            text_le(a@, b@) == text_le(a@.skip(i as int), b@.skip(i as int)),
        decreases la - i,
    {
        let ca = a.get_char(i);
        let cb = b.get_char(i);
        assert(a@.skip(i as int)[0] == ca);
        assert(b@.skip(i as int)[0] == cb);
        if ca != cb {
            return (ca as u32) < (cb as u32);
        }
        assert(a@.skip(i as int).drop_first() =~= a@.skip(i as int + 1));
        assert(b@.skip(i as int).drop_first() =~= b@.skip(i as int + 1));
        i = i + 1;
    }
    i == la
}

/// The character of a decimal digit.
pub open spec fn digit_char(d: int) -> char {
    (d + 48) as char
}

/// The decimal writing of `n`, without sign or leading zeros.
pub open spec fn decimal(n: nat) -> Seq<char>
    decreases n,
{
    if n < 10 {
        seq![digit_char(n as int)]
    } else {
        decimal(n / 10).push(digit_char((n % 10) as int))
    }
}

fn digit_text(d: u64) -> (s: &'static str)
    requires
        d < 10,
    ensures
        s@ == seq![digit_char(d as int)],
{
    let s = if d == 0 {
        proof { reveal_strlit("0"); }
        "0"
    } else if d == 1 {
        proof { reveal_strlit("1"); }
        "1"
    } else if d == 2 {
        proof { reveal_strlit("2"); }
        "2"
    } else if d == 3 {
        proof { reveal_strlit("3"); }
        "3"
    } else if d == 4 {
        proof { reveal_strlit("4"); }
        "4"
    } else if d == 5 {
        proof { reveal_strlit("5"); }
        "5"
    } else if d == 6 {
        proof { reveal_strlit("6"); }
        "6"
    } else if d == 7 {
        proof { reveal_strlit("7"); }
        "7"
    } else if d == 8 {
        proof { reveal_strlit("8"); }
        "8"
    } else {
        proof { reveal_strlit("9"); }
        "9"
    };
    assert(s@ =~= seq![digit_char(d as int)]);
    s
}

/// The number that a text of decimal digits stands for.
pub open spec fn digits_value(s: Seq<char>) -> int
    decreases s.len(),
{
    if s.len() == 0 {
        0
    } else {
        digits_value(s.drop_last()) * 10 + (s.last() as int - 48)
    }
}

/// A text made only of the digits `0` to `9`, with no leading zero unless it
/// is `0` itself.
pub open spec fn is_decimal_text(s: Seq<char>) -> bool {
    &&& s.len() > 0
    &&& forall|i: int| 0 <= i < s.len() ==> 48 <= (#[trigger] s[i] as int) <= 57
    &&& (s[0] == '0' ==> s.len() == 1)
}

/// Law: the decimal writing of `n` is a well-formed decimal text that reads
/// back as `n`; so distinct numbers are written differently.
pub proof fn lemma_decimal_reads_back(n: nat)
    ensures
        is_decimal_text(decimal(n)),
        digits_value(decimal(n)) == n,
    decreases n,
{
    if n < 10 {
        assert(decimal(n) =~= seq![digit_char(n as int)]);
        assert(decimal(n).drop_last() =~= Seq::<char>::empty());
        assert(digit_char(n as int) as int == n + 48);
        assert(digits_value(Seq::<char>::empty()) == 0);
        assert(digits_value(decimal(n)) == digits_value(decimal(n).drop_last()) * 10 + (decimal(n).last() as int - 48));
    } else {
        lemma_decimal_reads_back(n / 10);
        let d = decimal(n / 10);
        let s = decimal(n);
        assert(s.drop_last() =~= d);
        assert(s[0] == d[0]);
        assert forall|i: int| 0 <= i < s.len() implies 48 <= (#[trigger] s[i] as int) <= 57 by {
            if i < d.len() {
                assert(s[i] == d[i]);
            }
        }
        assert((n / 10) * 10 + n % 10 == n);
        assert(digit_char((n % 10) as int) as int == n % 10 + 48);
        assert(s.last() == digit_char((n % 10) as int));
        assert(digits_value(s) == digits_value(d) * 10 + (n % 10) as int);
        if d[0] == '0' {
            assert(d.len() == 1);
            assert(digits_value(d.drop_last()) == 0);
            assert(digits_value(d) == 0);
        }
    }
}

/// Writes `n` in decimal, as `format!("{}", n)` does.
pub fn decimal_string(n: u64) -> (s: String)
    ensures
        s@ == decimal(n as nat),
        is_decimal_text(s@),
        digits_value(s@) == n,
    decreases n,
{
    proof {
        lemma_decimal_reads_back(n as nat);
    }
    if n < 10 {
        String::from_str(digit_text(n))
    } else {
        let mut s = decimal_string(n / 10);
        s.append(digit_text(n % 10));
        s
    }
}

} // verus!
