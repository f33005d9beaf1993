//! Text: alphabetical order, blank text, and numbers in decimal.

use vstd::prelude::*;
use vstd::std_specs::iter::IteratorSpec;
use vstd::string::*;

verus! {

/// Alphabetical order, by the scalar values of the characters; a prefix comes
/// before what it begins.
pub open spec fn lex_le(a: Seq<char>, b: Seq<char>) -> bool
    decreases a.len(),
{
    if a.len() == 0 {
        true
    } else if b.len() == 0 {
        false
    } else if a[0] == b[0] {
        lex_le(a.drop_first(), b.drop_first())
    } else {
        a[0] < b[0]
    }
}

/// `c` with an ASCII capital turned into its small letter.
pub open spec fn ascii_lower(c: char) -> char {
    if 'A' <= c <= 'Z' {
        ((c as u8 + 32) as u8) as char
    } else {
        c
    }
}

/// `s` with each ASCII capital turned into its small letter.
pub open spec fn folded(s: Seq<char>) -> Seq<char> {
    s.map_values(|c: char| ascii_lower(c))
}

pub proof fn lemma_lex_total(a: Seq<char>, b: Seq<char>)
    ensures
        lex_le(a, b) || lex_le(b, a),
    decreases a.len(),
{
    if a.len() > 0 && b.len() > 0 && a[0] == b[0] {
        lemma_lex_total(a.drop_first(), b.drop_first());
    }
}

pub proof fn lemma_lex_transitive(a: Seq<char>, b: Seq<char>, c: Seq<char>)
    requires
        lex_le(a, b),
        lex_le(b, c),
    ensures
        lex_le(a, c),
    decreases a.len(),
{
    if a.len() > 0 && b.len() > 0 && c.len() > 0 && a[0] == b[0] && b[0] == c[0] {
        lemma_lex_transitive(a.drop_first(), b.drop_first(), c.drop_first());
    }
}

/// Two texts that rank alike are the same.
pub proof fn law_lex_antisymmetric(a: Seq<char>, b: Seq<char>)
    requires
        lex_le(a, b),
        lex_le(b, a),
    ensures
        a == b,
    decreases a.len(),
{
    if a.len() > 0 {
        law_lex_antisymmetric(a.drop_first(), b.drop_first());
        assert forall|i: int| 0 <= i < a.len() implies a[i] == b[i] by {
            if i > 0 {
                assert(a.drop_first()[i - 1] == b.drop_first()[i - 1]);
            }
        }
        assert(a.drop_first().len() == b.drop_first().len());
        assert(a =~= b);
    } else {
        assert(a =~= b);
    }
}

fn lower(c: char) -> (l: char)
    ensures
        l == ascii_lower(c),
{
    if 'A' <= c && c <= 'Z' {
        (c as u8 + 32) as char
    } else {
        c
    }
}

/// Whether `a` comes no later than `b` in alphabetical order.
pub fn lex_before(a: &str, b: &str) -> (before: bool)
    ensures
        before == lex_le(a@, b@),
{
    let mut left = a.chars();
    let mut right = b.chars();
    loop
        invariant
            left.decrease() is Some,
            lex_le(a@, b@) == lex_le(left.remaining(), right.remaining()),
        decreases left.decrease()->0,
    {
        match left.next() {
            None => {
                return true;
            },
            Some(x) => {
                match right.next() {
                    None => {
                        return false;
                    },
                    Some(y) => {
                        if x != y {
                            return x < y;
                        }
                    },
                }
            },
        }
    }
}

/// Whether `a` comes no later than `b` in alphabetical order, ASCII capitals
/// counting as small letters.
pub fn lex_before_folded(a: &str, b: &str) -> (before: bool)
    ensures
        before == lex_le(folded(a@), folded(b@)),
{
    let mut left = a.chars();
    let mut right = b.chars();
    loop
        invariant
            lex_le(folded(a@), folded(b@)) == lex_le(
                folded(left.remaining()),
                folded(right.remaining()),
            ),
            left.decrease() is Some,
        decreases left.decrease()->0,
    {
        let ghost l = left.remaining();
        let ghost r = right.remaining();
        match left.next() {
            None => {
                return true;
            },
            Some(x) => {
                match right.next() {
                    None => {
                        return false;
                    },
                    Some(y) => {
                        let (x, y) = (lower(x), lower(y));
                        if x != y {
                            return x < y;
                        }
                        proof {
                            assert(folded(l).drop_first() =~= folded(l.drop_first()));
                            assert(folded(r).drop_first() =~= folded(r.drop_first()));
                        }
                    },
                }
            },
        }
    }
}

/// The characters with the Unicode property `White_Space`.
pub open spec fn is_white_space(c: char) -> bool {
    let u = c as u32;
    ||| 0x9 <= u <= 0xd
    ||| u == 0x20
    ||| u == 0x85
    ||| u == 0xa0
    ||| u == 0x1680
    ||| 0x2000 <= u <= 0x200a
    ||| u == 0x2028
    ||| u == 0x2029
    ||| u == 0x202f
    ||| u == 0x205f
    ||| u == 0x3000
}

/// Nothing is left of `s` once white space is trimmed from its ends.
pub open spec fn is_blank(s: Seq<char>) -> bool {
    forall|i: int| 0 <= i < s.len() ==> is_white_space(#[trigger] s[i])
}

fn white_space(c: char) -> (w: bool)
    ensures
        w == is_white_space(c),
{
    let u: u32 = c as u32;
    (0x9 <= u && u <= 0xd) || u == 0x20 || u == 0x85 || u == 0xa0 || u == 0x1680 || (0x2000 <= u
        && u <= 0x200a) || u == 0x2028 || u == 0x2029 || u == 0x202f || u == 0x205f || u == 0x3000
}

/// Whether `s` holds nothing but white space.
pub fn blank(s: &str) -> (b: bool)
    ensures
        b == is_blank(s@),
{
    let mut rest = s.chars();
    let ghost mut seen: int = 0;
    loop
        invariant
            0 <= seen <= s@.len(),
            rest.decrease() is Some,
            rest.remaining() == s@.skip(seen),
            forall|i: int| 0 <= i < seen ==> is_white_space(#[trigger] s@[i]),
        decreases rest.decrease()->0,
    {
        match rest.next() {
            None => {
                return true;
            },
            Some(c) => {
                assert(c == s@[seen]);
                if !white_space(c) {
                    return false;
                }
                proof {
                    seen = seen + 1;
                }
            },
        }
    }
}

/// The decimal digit `d`.
pub open spec fn digit(d: nat) -> char {
    ((d + 48) as u8) as char
}

/// `n` in decimal.
pub open spec fn decimal(n: nat) -> Seq<char>
    decreases n,
{
    if n < 10 {
        seq![digit(n)]
    } else {
        decimal(n / 10).push(digit(n % 10))
    }
}

/// An integer in decimal, with a minus sign where it is negative.
pub open spec fn signed_decimal(n: int) -> Seq<char> {
    if n < 0 {
        seq!['-'] + decimal((-n) as nat)
    } else {
        decimal(n as nat)
    }
}

fn digit_text(d: u64) -> (s: &'static str)
    requires
        d < 10,
    ensures
        s@ == seq![digit(d as nat)],
{
    proof {
        reveal_strlit("0");
        reveal_strlit("1");
        reveal_strlit("2");
        reveal_strlit("3");
        reveal_strlit("4");
        reveal_strlit("5");
        reveal_strlit("6");
        reveal_strlit("7");
        reveal_strlit("8");
        reveal_strlit("9");
    }
    let s = if d == 0 {
        "0"
    } else if d == 1 {
        "1"
    } else if d == 2 {
        "2"
    } else if d == 3 {
        "3"
    } else if d == 4 {
        "4"
    } else if d == 5 {
        "5"
    } else if d == 6 {
        "6"
    } else if d == 7 {
        "7"
    } else if d == 8 {
        "8"
    } else {
        "9"
    };
    assert(s@ =~= seq![digit(d as nat)]);
    s
}

/// `n` written in decimal.
pub fn decimal_text(n: u64) -> (s: String)
    ensures
        s@ == decimal(n as nat),
    decreases n,
{
    if n < 10 {
        digit_text(n).to_owned()
    } else {
        let mut s = decimal_text(n / 10);
        s.append(digit_text(n % 10));
        assert(s@ =~= decimal(n as nat));
        s
    }
}

/// `n` written in decimal, with a minus sign where it is negative.
pub fn signed_decimal_text(n: i32) -> (s: String)
    ensures
        s@ == signed_decimal(n as int),
{
    if n < 0 {
        let magnitude: i64 = -(n as i64);
        let mut s = "-".to_owned();
        proof {
            reveal_strlit("-");
        }
        s.append(decimal_text(magnitude as u64).as_str());
        assert(s@ =~= signed_decimal(n as int));
        s
    } else {
        decimal_text(n as u64)
    }
}

// ---------------------------------------------------------------------------
// What holds of these texts
// ---------------------------------------------------------------------------

/// One list of numbers precedes another: at the first place where they differ
/// it has the smaller number, or it has ended.
pub open spec fn precedes(a: Seq<int>, b: Seq<int>) -> bool {
    exists|k: int|
        {
            &&& 0 <= k <= a.len()
            &&& k < b.len()
            &&& #[trigger] a.take(k) == b.take(k)
            &&& k == a.len() || a[k] < b[k]
        }
}

/// The code points of a text.
pub open spec fn codes(text: Seq<char>) -> Seq<int> {
    Seq::new(text.len(), |i: int| text[i] as int)
}

/// The code points of a text, those of ASCII capitals taken as the small
/// letters'.
pub open spec fn small_codes(text: Seq<char>) -> Seq<int> {
    Seq::new(
        text.len(),
        |i: int|
            if 65 <= text[i] as int <= 90 {
                text[i] as int + 32
            } else {
                text[i] as int
            },
    )
}

/// Texts are compared at the first place where they differ.
pub proof fn law_lex_at_first_difference(a: Seq<char>, b: Seq<char>)
    ensures
        lex_le(a, b) <==> !precedes(codes(b), codes(a)),
    decreases a.len(),
{
    let (x, y) = (codes(b), codes(a));
    if a.len() > 0 && b.len() == 0 {
        assert(x.take(0) =~= y.take(0));
        assert(precedes(x, y));
    } else if a.len() > 0 {
        if b[0] < a[0] {
            assert(x.take(0) =~= y.take(0));
            assert(precedes(x, y));
        } else if a[0] == b[0] {
            let (u, v) = (codes(b.drop_first()), codes(a.drop_first()));
            law_lex_at_first_difference(a.drop_first(), b.drop_first());
            assert(u =~= x.drop_first() && v =~= y.drop_first());
            if precedes(u, v) {
                let k = choose|k: int|
                    {
                        &&& 0 <= k <= u.len()
                        &&& k < v.len()
                        &&& #[trigger] u.take(k) == v.take(k)
                        &&& k == u.len() || u[k] < v[k]
                    };
                assert(x.take(k + 1) =~= seq![x[0]] + u.take(k));
                assert(y.take(k + 1) =~= seq![y[0]] + v.take(k));
                assert(precedes(x, y));
            }
            if precedes(x, y) {
                let k = choose|k: int|
                    {
                        &&& 0 <= k <= x.len()
                        &&& k < y.len()
                        &&& #[trigger] x.take(k) == y.take(k)
                        &&& k == x.len() || x[k] < y[k]
                    };
                assert(k > 0);
                assert(u.take(k - 1) =~= x.take(k).drop_first());
                assert(v.take(k - 1) =~= y.take(k).drop_first());
                assert(precedes(u, v));
            }
        } else if precedes(x, y) {
            let k = choose|k: int|
                {
                    &&& 0 <= k <= x.len()
                    &&& k < y.len()
                    &&& #[trigger] x.take(k) == y.take(k)
                    &&& k == x.len() || x[k] < y[k]
                };
            if k > 0 {
                assert(x.take(k)[0] == y.take(k)[0]);
            }
        }
    }
}

/// Folded texts are compared as if ASCII capitals were small letters.
pub proof fn law_folded_at_first_difference(a: Seq<char>, b: Seq<char>)
    ensures
        lex_le(folded(a), folded(b)) <==> !precedes(small_codes(b), small_codes(a)),
{
    law_lex_at_first_difference(folded(a), folded(b));
    assert(codes(folded(a)) =~= small_codes(a));
    assert(codes(folded(b)) =~= small_codes(b));
}

/// The code points of the white space of Unicode, one by one.
pub open spec fn is_white_space_code(code: int) -> bool {
    ||| code == 0x9
    ||| code == 0xa
    ||| code == 0xb
    ||| code == 0xc
    ||| code == 0xd
    ||| code == 0x20
    ||| code == 0x85
    ||| code == 0xa0
    ||| code == 0x1680
    ||| code == 0x2000
    ||| code == 0x2001
    ||| code == 0x2002
    ||| code == 0x2003
    ||| code == 0x2004
    ||| code == 0x2005
    ||| code == 0x2006
    ||| code == 0x2007
    ||| code == 0x2008
    ||| code == 0x2009
    ||| code == 0x200a
    ||| code == 0x2028
    ||| code == 0x2029
    ||| code == 0x202f
    ||| code == 0x205f
    ||| code == 0x3000
}

proof fn lemma_white_space_code(c: char)
    ensures
        is_white_space(c) <==> is_white_space_code(c as int),
{
}

/// A text is blank where nothing stands in it but white space.
pub proof fn law_blank_is_white(text: Seq<char>)
    ensures
        is_blank(text) <==> forall|i: int|
            0 <= i < text.len() ==> is_white_space_code(#[trigger] text[i] as int),
{
    if is_blank(text) {
        assert forall|i: int| 0 <= i < text.len() implies is_white_space_code(
            #[trigger] text[i] as int,
        ) by {
            assert(is_white_space(text[i]));
            lemma_white_space_code(text[i]);
        }
    } else {
        let i = choose|i: int| 0 <= i < text.len() && !is_white_space(#[trigger] text[i]);
        lemma_white_space_code(text[i]);
        assert(!is_white_space_code(text[i] as int));
    }
}

/// The number that decimal digits stand for.
pub open spec fn number_of(digits: Seq<char>) -> int
    decreases digits.len(),
{
    if digits.len() == 0 {
        0
    } else {
        10 * number_of(digits.drop_last()) + (digits.last() as int - 48)
    }
}

/// The decimal digits of a number stand for it, and begin with a zero only
/// where they are one digit.
pub proof fn law_decimal_reads_back(n: nat)
    ensures
        number_of(decimal(n)) == n,
        decimal(n).len() > 0,
        forall|i: int| 0 <= i < decimal(n).len() ==> 48 <= #[trigger] decimal(n)[i] as int <= 57,
        decimal(n).len() > 1 ==> decimal(n)[0] != '0',
    decreases n,
{
    if n < 10 {
        assert(number_of(decimal(n).drop_last()) == 0);
    } else {
        law_decimal_reads_back(n / 10);
        assert(decimal(n).drop_last() =~= decimal(n / 10));
        if decimal(n / 10).len() == 1 {
            assert(number_of(decimal(n / 10).drop_last()) == 0);
        }
    }
}

/// A negative number has a minus sign before its digits.
pub proof fn law_signed_decimal_reads_back(n: int)
    ensures
        n >= 0 ==> number_of(signed_decimal(n)) == n && (signed_decimal(n).len() > 1
            ==> signed_decimal(n)[0] != '0' && signed_decimal(n)[0] != '-'),
        n < 0 ==> signed_decimal(n).len() > 1 && signed_decimal(n)[0] == '-' && number_of(
            signed_decimal(n).drop_first(),
        ) == -n && signed_decimal(n)[1] != '0',
{
    if n >= 0 {
        law_decimal_reads_back(n as nat);
        assert(48 <= decimal(n as nat)[0] as int <= 57);
    } else {
        let digits = decimal((-n) as nat);
        law_decimal_reads_back((-n) as nat);
        assert(signed_decimal(n).drop_first() =~= digits);
        if digits.len() == 1 {
            assert(number_of(digits.drop_last()) == 0);
        }
    }
}

} // verus!
