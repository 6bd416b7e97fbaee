//! Plain-text helpers: the order of strings, prefixes, and decimal numbers.

use vstd::prelude::*;
use vstd::std_specs::iter::IteratorSpec;

verus! {

broadcast use vstd::string::group_string_axioms;

/// Whether `a` sorts strictly before `b`: the strings are compared character by
/// character by code point, and a proper prefix sorts before its extensions.
/// This is the order in which `str` compares.
pub open spec fn precedes(a: Seq<char>, b: Seq<char>) -> bool
    decreases a.len(),
{
    if b.len() == 0 {
        false
    } else if a.len() == 0 {
        true
    } else if a[0] == b[0] {
        precedes(a.drop_first(), b.drop_first())
    } else {
        (a[0] as int) < (b[0] as int)
    }
}

/// No string sorts before itself.
pub proof fn lemma_precedes_irreflexive(a: Seq<char>)
    ensures
        !precedes(a, a),
    decreases a.len(),
{
    if a.len() > 0 {
        lemma_precedes_irreflexive(a.drop_first());
    }
}

/// Of two strings, at most one sorts before the other.
pub proof fn lemma_precedes_asymmetric(a: Seq<char>, b: Seq<char>)
    requires
        precedes(a, b),
    ensures
        !precedes(b, a),
    decreases a.len(),
{
    if a.len() > 0 && b.len() > 0 && a[0] == b[0] {
        lemma_precedes_asymmetric(a.drop_first(), b.drop_first());
    }
}

/// The order is transitive.
pub proof fn lemma_precedes_transitive(a: Seq<char>, b: Seq<char>, c: Seq<char>)
    requires
        precedes(a, b),
        precedes(b, c),
    ensures
        precedes(a, c),
    decreases a.len(),
{
    if a.len() > 0 && b.len() > 0 && c.len() > 0 && a[0] == b[0] && b[0] == c[0] {
        lemma_precedes_transitive(a.drop_first(), b.drop_first(), c.drop_first());
    }
}

/// Two different strings are always ordered one way or the other.
pub proof fn lemma_precedes_connected(a: Seq<char>, b: Seq<char>)
    ensures
        a == b || precedes(a, b) || precedes(b, a),
    decreases a.len(),
{
    if a.len() == 0 || b.len() == 0 {
        if a.len() == 0 && b.len() == 0 {
            assert(a =~= b);
        }
    } else if a[0] == b[0] {
        lemma_precedes_connected(a.drop_first(), b.drop_first());
        if a.drop_first() == b.drop_first() {
            assert(a =~= seq![a[0]] + a.drop_first());
            assert(b =~= seq![b[0]] + b.drop_first());
        }
    }
}

/// How one string stands to another in the order of [`precedes`].
#[derive(Clone, Copy, Debug, PartialEq, Eq)]
pub enum Rank {
    Before,
    Same,
    After,
}

/// Compares two strings in the order of [`precedes`].
pub fn rank(a: &str, b: &str) -> (r: Rank)
    ensures
        r is Before <==> precedes(a@, b@),
        r is Same <==> a@ == b@,
        r is After <==> precedes(b@, a@),
{
    let mut left = a.chars();
    let mut right = b.chars();
    loop
        invariant
            precedes(a@, b@) == precedes(left.remaining(), right.remaining()),
            precedes(b@, a@) == precedes(right.remaining(), left.remaining()),
            (a@ == b@) == (left.remaining() == right.remaining()),
            left.decrease() is Some,
        decreases left.decrease()->0,
    {
        let ghost l = left.remaining();
        let ghost r = right.remaining();
        let x = left.next();
        let y = right.next();
        match (x, y) {
            (None, None) => {
                proof {
                    assert(l =~= r);
                    lemma_precedes_irreflexive(l);
                }
                return Rank::Same;
            },
            (None, Some(_)) => {
                return Rank::Before;
            },
            (Some(_), None) => {
                return Rank::After;
            },
            (Some(c), Some(d)) => {
                if c != d {
                    if c < d {
                        return Rank::Before;
                    } else {
                        return Rank::After;
                    }
                }
                proof {
                    assert(l =~= seq![c] + l.drop_first());
                    assert(r =~= seq![d] + r.drop_first());
                }
            },
        }
    }
}

/// Whether `text` begins with `prefix`.
pub fn starts_with(text: &str, prefix: &str) -> (r: bool)
    ensures
        r == prefix@.is_prefix_of(text@),
{
    let mut wanted = prefix.chars();
    let mut given = text.chars();
    loop
        invariant
            prefix@.is_prefix_of(text@) == wanted.remaining().is_prefix_of(given.remaining()),
            wanted.decrease() is Some,
        decreases wanted.decrease()->0,
    {
        let ghost w = wanted.remaining();
        let ghost g = given.remaining();
        match wanted.next() {
            None => {
                return true;
            },
            Some(c) => {
                match given.next() {
                    None => {
                        return false;
                    },
                    Some(d) => {
                        if c != d {
                            assert(w.len() <= g.len() ==> w[0] != g.subrange(0, w.len() as int)[0]);
                            return false;
                        }
                        proof {
                            lemma_prefix_step(w, g);
                        }
                    },
                }
            },
        }
    }
}

/// Past an equal first character, one string begins with another exactly if
/// the same holds of what is left of both.
proof fn lemma_prefix_step(w: Seq<char>, g: Seq<char>)
    requires
        w.len() > 0,
        g.len() > 0,
        w[0] == g[0],
    ensures
        w.is_prefix_of(g) == w.drop_first().is_prefix_of(g.drop_first()),
{
    let w1 = w.drop_first();
    let g1 = g.drop_first();
    if w.is_prefix_of(g) {
        assert forall|i: int| 0 <= i < w1.len() implies w1[i] == g1.subrange(0, w1.len() as int)[i] by {
            assert(w[i + 1] == g.subrange(0, w.len() as int)[i + 1]);
        }
        assert(w1 =~= g1.subrange(0, w1.len() as int));
    }
    if w1.is_prefix_of(g1) {
        assert forall|i: int| 0 <= i < w.len() implies w[i] == g.subrange(0, w.len() as int)[i] by {
            if i > 0 {
                assert(w1[i - 1] == g1.subrange(0, w1.len() as int)[i - 1]);
            }
        }
        assert(w =~= g.subrange(0, w.len() as int));
    }
}

/// The character that writes the digit `d`.
pub open spec fn digit_char(d: nat) -> char
    recommends
        d < 10,
{
    if d == 0 {
        '0'
    } else if d == 1 {
        '1'
    } else if d == 2 {
        '2'
    } else if d == 3 {
        '3'
    } else if d == 4 {
        '4'
    } else if d == 5 {
        '5'
    } else if d == 6 {
        '6'
    } else if d == 7 {
        '7'
    } else if d == 8 {
        '8'
    } else {
        '9'
    }
}

/// The decimal numeral of `n`: no sign, no leading zero, `"0"` for zero.
pub open spec fn decimal(n: nat) -> Seq<char>
    decreases n,
{
    if n < 10 {
        seq![digit_char(n)]
    } else {
        decimal(n / 10).push(digit_char(n % 10))
    }
}

/// The digit `d` as a string of one character.
fn digit_text(d: u64) -> (s: &'static str)
    requires
        d < 10,
    ensures
        s@ == seq![digit_char(d as nat)],
{
    proof {
        reveal_strlit("0");
        reveal_strlit("1");
        reveal_strlit("2");
        reveal_strlit("3");
        reveal_strlit("4");
        reveal_strlit("5");
        reveal_strlit("6");
        reveal_strlit("7");
        reveal_strlit("8");
        reveal_strlit("9");
    }
    let s = if d == 0 {
        "0"
    } else if d == 1 {
        "1"
    } else if d == 2 {
        "2"
    } else if d == 3 {
        "3"
    } else if d == 4 {
        "4"
    } else if d == 5 {
        "5"
    } else if d == 6 {
        "6"
    } else if d == 7 {
        "7"
    } else if d == 8 {
        "8"
    } else {
        "9"
    };
    assert(s@ =~= seq![digit_char(d as nat)]);
    s
}

/// Writes `n` as a decimal numeral.
pub fn to_decimal(n: u64) -> (s: String)
    ensures
        s@ == decimal(n as nat),
    decreases n,
{
    if n < 10 {
        String::from_str(digit_text(n))
    } else {
        let mut s = to_decimal(n / 10);
        s.append(digit_text(n % 10));
        assert(s@ =~= decimal(n as nat));
        s
    }
}

} // verus!
