//! Verified character-level string utilities: equality and lexicographic
//! order over the character sequences two `&str` values denote, and the
//! decimal rendering of an index.

use vstd::prelude::*;
use vstd::string::StrSliceExecFns;

verus! {

/// Strict lexicographic order on character sequences, by code point: a proper
/// prefix comes first, otherwise the first differing character decides.
pub open spec fn lex_lt(a: Seq<char>, b: Seq<char>) -> bool
    decreases a.len(),
{
    if b.len() == 0 {
        false
    } else if a.len() == 0 {
        true
    } else if a[0] != b[0] {
        a[0] < b[0]
    } else {
        lex_lt(a.drop_first(), b.drop_first())
    }
}

/// Character sequences are totally ordered by `lex_lt`: two of them are
/// either equal or strictly ordered one way.
pub proof fn lemma_lex_lt_total(a: Seq<char>, b: Seq<char>)
    ensures
        !lex_lt(a, b) && !lex_lt(b, a) ==> a == b,
        lex_lt(a, b) ==> !lex_lt(b, a),
    decreases a.len(),
{
    if a.len() > 0 && b.len() > 0 && a[0] == b[0] {
        lemma_lex_lt_total(a.drop_first(), b.drop_first());
        if !lex_lt(a, b) && !lex_lt(b, a) {
            assert(a =~= seq![a[0]] + a.drop_first());
            assert(b =~= seq![b[0]] + b.drop_first());
        }
    } else {
        if !lex_lt(a, b) && !lex_lt(b, a) {
            assert(a =~= b);
        }
    }
}

/// `lex_lt` is transitive.
pub proof fn lemma_lex_lt_trans(a: Seq<char>, b: Seq<char>, c: Seq<char>)
    requires
        lex_lt(a, b),
        lex_lt(b, c),
    ensures
        lex_lt(a, c),
    decreases a.len(),
{
    if a.len() > 0 && b.len() > 0 && c.len() > 0 && a[0] == b[0] && b[0] == c[0] {
        lemma_lex_lt_trans(a.drop_first(), b.drop_first(), c.drop_first());
    }
}

proof fn lemma_lex_lt_by_diff(a: Seq<char>, b: Seq<char>, i: int)
    requires
        0 <= i < a.len(),
        i < b.len(),
        forall|j: int| 0 <= j < i ==> a[j] == b[j],
        a[i] != b[i],
    ensures
        lex_lt(a, b) == (a[i] < b[i]),
    decreases i,
{
    if i > 0 {
        lemma_lex_lt_by_diff(a.drop_first(), b.drop_first(), i - 1);
    }
}

proof fn lemma_lex_lt_by_prefix(a: Seq<char>, b: Seq<char>)
    requires
        a.len() <= b.len(),
        forall|j: int| 0 <= j < a.len() ==> a[j] == b[j],
    ensures
        lex_lt(a, b) == (a.len() < b.len()),
    decreases a.len(),
{
    if a.len() > 0 {
        lemma_lex_lt_by_prefix(a.drop_first(), b.drop_first());
    }
}

/// Whether two string slices read the same characters.
pub fn str_eq(a: &str, b: &str) -> (r: bool)
    ensures
        r == (a@ == b@),
{
    let an = a.unicode_len();
    let bn = b.unicode_len();
    if an != bn {
        return false;
    }
    let mut i: usize = 0;
    while i < an
        invariant
            an == a@.len(),
            an == b@.len(),
            0 <= i <= an,
            forall|j: int| 0 <= j < i ==> a@[j] == b@[j],
        decreases an - i,
    {
        if a.get_char(i) != b.get_char(i) {
            return false;
        }
        i = i + 1;
    }
    proof {
        assert(a@ =~= b@);
    }
    true
}

/// Whether `a` reads strictly before `b` in lexicographic order.
pub fn str_lt(a: &str, b: &str) -> (r: bool)
    ensures
        r == lex_lt(a@, b@),
{
    let an = a.unicode_len();
    let bn = b.unicode_len();
    let n = if an < bn {
        an
    } else {
        bn
    };
    let mut i: usize = 0;
    while i < n
        invariant
            an == a@.len(),
            bn == b@.len(),
            n == if an < bn {
                an
            } else {
                bn
            },
            0 <= i <= n,
            forall|j: int| 0 <= j < i ==> a@[j] == b@[j],
        decreases n - i,
    {
        let ac = a.get_char(i);
        let bc = b.get_char(i);
        if ac != bc {
            proof {
                lemma_lex_lt_by_diff(a@, b@, i as int);
            }
            return ac < bc;
        }
        i = i + 1;
    }
    proof {
        if an <= bn {
            lemma_lex_lt_by_prefix(a@, b@);
        } else {
            lemma_lex_lt_by_prefix(b@, a@);
            lemma_lex_lt_total(a@, b@);
        }
    }
    an < bn
}

/// The characters of one decimal digit.
pub open spec fn digit_chars(d: nat) -> Seq<char> {
    if d == 0 {
        "0"@
    } else if d == 1 {
        "1"@
    } else if d == 2 {
        "2"@
    } else if d == 3 {
        "3"@
    } else if d == 4 {
        "4"@
    } else if d == 5 {
        "5"@
    } else if d == 6 {
        "6"@
    } else if d == 7 {
        "7"@
    } else if d == 8 {
        "8"@
    } else {
        "9"@
    }
}

/// The decimal digits of `n`, most significant first.
pub open spec fn dec_chars(n: nat) -> Seq<char>
    decreases n,
{
    if n < 10 {
        digit_chars(n)
    } else {
        dec_chars(n / 10) + digit_chars(n % 10)
    }
}

/// Renders `n` in decimal.
pub fn dec_string(n: usize) -> (r: String)
    ensures
        r@ == dec_chars(n as nat),
    decreases n,
{
    let mut r = if n < 10 {
        String::new()
    } else {
        dec_string(n / 10)
    };
    let d = n % 10;
    let ds: &str = if d == 0 {
        "0"
    } else if d == 1 {
        "1"
    } else if d == 2 {
        "2"
    } else if d == 3 {
        "3"
    } else if d == 4 {
        "4"
    } else if d == 5 {
        "5"
    } else if d == 6 {
        "6"
    } else if d == 7 {
        "7"
    } else if d == 8 {
        "8"
    } else {
        "9"
    };
    r.append(ds);
    r
}

} // verus!
