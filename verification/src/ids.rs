//! Identifiers for expandable tree items, derived from the full structural
//! path of positional indices from the root: the path `[2, 0, 1]` becomes
//! `"c2-0-1"`. Because the encoding is injective on non-empty paths,
//! distinct paths always receive distinct identifiers.

use vstd::prelude::*;
use vstd::arithmetic::div_mod::lemma_fundamental_div_mod;
use crate::strutil::chars_to_string;

verus! {

/// The character for one decimal digit.
pub open spec fn digit_char(d: nat) -> char {
    if d == 0 {
        '0'
    } else if d == 1 {
        '1'
    } else if d == 2 {
        '2'
    } else if d == 3 {
        '3'
    } else if d == 4 {
        '4'
    } else if d == 5 {
        '5'
    } else if d == 6 {
        '6'
    } else if d == 7 {
        '7'
    } else if d == 8 {
        '8'
    } else {
        '9'
    }
}

/// Whether a character is a decimal digit.
pub open spec fn is_digit_char(c: char) -> bool {
    c == '0' || c == '1' || c == '2' || c == '3' || c == '4' || c == '5' || c == '6' || c == '7'
        || c == '8' || c == '9'
}

/// The numeric value of a digit character.
pub open spec fn digit_val(c: char) -> nat {
    if c == '1' {
        1
    } else if c == '2' {
        2
    } else if c == '3' {
        3
    } else if c == '4' {
        4
    } else if c == '5' {
        5
    } else if c == '6' {
        6
    } else if c == '7' {
        7
    } else if c == '8' {
        8
    } else if c == '9' {
        9
    } else {
        0
    }
}

/// The decimal rendering of a number, most significant digit first, without
/// leading zeros (zero itself renders as "0").
pub open spec fn dec_digits(n: nat) -> Seq<char>
    decreases n,
{
    if n < 10 {
        seq![digit_char(n)]
    } else {
        dec_digits(n / 10).push(digit_char(n % 10))
    }
}

/// The number a digit string stands for.
pub open spec fn seq_val(s: Seq<char>) -> nat
    decreases s.len(),
{
    if s.len() == 0 {
        0
    } else {
        seq_val(s.drop_last()) * 10 + digit_val(s.last())
    }
}

/// A digit character reads back as the digit it was made from.
proof fn lemma_digit_roundtrip(d: nat)
    requires
        d < 10,
    ensures
        digit_val(digit_char(d)) == d,
{
}

/// Reading back the decimal rendering gives the number itself.
pub proof fn lemma_val_dec(n: nat)
    ensures
        seq_val(dec_digits(n)) == n,
    decreases n,
{
    if n < 10 {
        lemma_digit_roundtrip(n);
        assert(dec_digits(n).drop_last() =~= Seq::<char>::empty());
        assert(seq_val(Seq::<char>::empty()) == 0);
        assert(dec_digits(n).last() == digit_char(n));
    } else {
        lemma_val_dec(n / 10);
        lemma_digit_roundtrip(n % 10);
        lemma_fundamental_div_mod(n as int, 10);
        assert(dec_digits(n).drop_last() =~= dec_digits(n / 10));
        assert(dec_digits(n).last() == digit_char(n % 10));
    }
}

/// Every character of a decimal rendering is a digit, and the rendering is
/// never empty.
pub proof fn lemma_dec_digits_shape(n: nat)
    ensures
        dec_digits(n).len() >= 1,
        forall|i: int| 0 <= i < dec_digits(n).len() ==> is_digit_char(#[trigger] dec_digits(n)[i]),
    decreases n,
{
    if n >= 10 {
        lemma_dec_digits_shape(n / 10);
    }
}

/// The decimal renderings of the elements of a path, joined by dashes.
pub open spec fn path_digits(path: Seq<usize>) -> Seq<char>
    decreases path.len(),
{
    if path.len() == 0 {
        Seq::empty()
    } else if path.len() == 1 {
        dec_digits(path[0] as nat)
    } else {
        dec_digits(path[0] as nat) + seq!['-'] + path_digits(path.drop_first())
    }
}

/// The identifier of the expandable item at a structural path.
pub open spec fn path_id(path: Seq<usize>) -> Seq<char> {
    seq!['c'] + path_digits(path)
}

/// Appending one index to a path appends its rendering, behind a dash when
/// the path was not empty.
pub proof fn lemma_path_digits_snoc(path: Seq<usize>, x: usize)
    ensures
        path_digits(path.push(x)) == if path.len() == 0 {
            dec_digits(x as nat)
        } else {
            path_digits(path) + seq!['-'] + dec_digits(x as nat)
        },
    decreases path.len(),
{
    let p = path.push(x);
    if path.len() == 0 {
        assert(p.len() == 1 && p[0] == x);
    } else {
        assert(p.drop_first() =~= path.drop_first().push(x));
        lemma_path_digits_snoc(path.drop_first(), x);
        if path.len() == 1 {
            assert(path_digits(p) =~= path_digits(path) + seq!['-'] + dec_digits(x as nat));
        } else {
            assert(path_digits(p) =~= path_digits(path) + seq!['-'] + dec_digits(x as nat));
        }
    }
}

/// Two decimal renderings followed by dash-or-nothing tails can only agree
/// if the numbers and the tails agree: a digit string never runs into a dash.
proof fn lemma_dec_split(a: nat, b: nat, t: Seq<char>, u: Seq<char>)
    requires
        dec_digits(a) + t == dec_digits(b) + u,
        t.len() == 0 || t[0] == '-',
        u.len() == 0 || u[0] == '-',
    ensures
        a == b,
        t == u,
{
    let da = dec_digits(a);
    let db = dec_digits(b);
    let s = da + t;
    lemma_dec_digits_shape(a);
    lemma_dec_digits_shape(b);
    if da.len() < db.len() {
        if t.len() == 0 {
            assert(s.len() == da.len());
            assert(s.len() >= db.len());
            assert(false);
        } else {
            assert(s[da.len() as int] == t[0]);
            assert(s[da.len() as int] == db[da.len() as int]);
            assert(is_digit_char(db[da.len() as int]));
            assert(false);
        }
    } else if db.len() < da.len() {
        if u.len() == 0 {
            assert(s.len() == db.len());
            assert(s.len() >= da.len());
            assert(false);
        } else {
            assert(s[db.len() as int] == u[0]);
            assert(s[db.len() as int] == da[db.len() as int]);
            assert(is_digit_char(da[db.len() as int]));
            assert(false);
        }
    }
    assert(da.len() == db.len());
    assert(da =~= db) by {
        assert(forall|i: int| 0 <= i < da.len() ==> da[i] == s[i] && db[i] == s[i]);
    }
    lemma_val_dec(a);
    lemma_val_dec(b);
    assert(s == db + u);
    assert((da + t).len() == da.len() + t.len());
    assert((db + u).len() == db.len() + u.len());
    assert(t.len() == u.len());
    assert forall|i: int| 0 <= i < t.len() implies t[i] == u[i] by {
        assert(t[i] == (da + t)[da.len() + i]);
        assert(u[i] == (db + u)[db.len() + i]);
    }
    assert(t =~= u);
}

/// Distinct non-empty paths have distinct dash-joined renderings.
pub proof fn lemma_path_digits_injective(p1: Seq<usize>, p2: Seq<usize>)
    requires
        p1.len() > 0,
        p2.len() > 0,
        path_digits(p1) == path_digits(p2),
    ensures
        p1 == p2,
    decreases p1.len(),
{
    let t1: Seq<char> = if p1.len() == 1 {
        Seq::empty()
    } else {
        seq!['-'] + path_digits(p1.drop_first())
    };
    let t2: Seq<char> = if p2.len() == 1 {
        Seq::empty()
    } else {
        seq!['-'] + path_digits(p2.drop_first())
    };
    assert(path_digits(p1) =~= dec_digits(p1[0] as nat) + t1);
    assert(path_digits(p2) =~= dec_digits(p2[0] as nat) + t2);
    lemma_dec_split(p1[0] as nat, p2[0] as nat, t1, t2);
    assert(p1[0] == p2[0]);
    if p1.len() == 1 {
        assert(t2.len() == 0);
        if p2.len() > 1 {
            lemma_dec_digits_shape(p2[1] as nat);
            assert(t2.len() > 0);
        }
        assert(p1 =~= p2);
    } else {
        assert(t1.len() > 0);
        if p2.len() == 1 {
            assert(t2.len() == 0);
            assert(false);
        }
        assert(path_digits(p1.drop_first()) =~= t1.drop_first());
        assert(path_digits(p2.drop_first()) =~= t2.drop_first());
        lemma_path_digits_injective(p1.drop_first(), p2.drop_first());
        assert(p1.len() == p2.len());
        assert forall|i: int| 0 <= i < p1.len() implies p1[i] == p2[i] by {
            if i > 0 {
                assert(p1[i] == p1.drop_first()[i - 1]);
                assert(p2[i] == p2.drop_first()[i - 1]);
            }
        }
        assert(p1 =~= p2);
    }
}

/// Distinct non-empty paths have distinct identifiers.
pub proof fn lemma_path_id_injective(p1: Seq<usize>, p2: Seq<usize>)
    requires
        p1.len() > 0,
        p2.len() > 0,
        path_id(p1) == path_id(p2),
    ensures
        p1 == p2,
{
    assert(path_digits(p1) =~= path_id(p1).drop_first());
    assert(path_digits(p2) =~= path_id(p2).drop_first());
    lemma_path_digits_injective(p1, p2);
}

/// The character for one decimal digit.
pub fn digit_char_exec(d: usize) -> (c: char)
    requires
        d < 10,
    ensures
        c == digit_char(d as nat),
{
    match d {
        0 => '0',
        1 => '1',
        2 => '2',
        3 => '3',
        4 => '4',
        5 => '5',
        6 => '6',
        7 => '7',
        8 => '8',
        _ => '9',
    }
}

/// Appends the decimal rendering of a number.
pub fn push_dec(out: &mut Vec<char>, n: usize)
    ensures
        final(out)@ == old(out)@ + dec_digits(n as nat),
    decreases n,
{
    if n >= 10 {
        push_dec(out, n / 10);
    }
    out.push(digit_char_exec(n % 10));
    proof {
        if n >= 10 {
            assert(final(out)@ =~= old(out)@ + dec_digits(n as nat));
        } else {
            assert(final(out)@ =~= old(out)@ + dec_digits(n as nat));
        }
    }
}

/// Builds the identifier of the expandable item at a structural path.
pub fn make_id(path: &Vec<usize>) -> (s: String)
    ensures
        s@ == path_id(path@),
{
    let mut out: Vec<char> = Vec::new();
    out.push('c');
    proof {
        assert(out@ =~= seq!['c'] + path_digits(path@.take(0)));
    }
    let mut i: usize = 0;
    while i < path.len()
        invariant
            0 <= i <= path@.len(),
            out@ == seq!['c'] + path_digits(path@.take(i as int)),
        decreases path@.len() - i,
    {
        proof {
            lemma_path_digits_snoc(path@.take(i as int), path@[i as int]);
            assert(path@.take(i + 1 as int) =~= path@.take(i as int).push(path@[i as int]));
        }
        if i > 0 {
            out.push('-');
        }
        push_dec(&mut out, path[i]);
        proof {
            assert(out@ =~= seq!['c'] + path_digits(path@.take(i + 1 as int)));
        }
        i = i + 1;
    }
    proof {
        assert(path@.take(path@.len() as int) =~= path@);
    }
    chars_to_string(&out)
}

} // verus!
