//! Decimal rendering and parsing of unsigned integers, with proofs that the
//! two are inverse to each other.

use vstd::prelude::*;
use vstd::string::*;
use crate::text::is_space_char;

verus! {

pub open spec fn is_digit_char(c: char) -> bool {
    c == '0' || c == '1' || c == '2' || c == '3' || c == '4' || c == '5' || c == '6' || c == '7'
        || c == '8' || c == '9'
}

/// The numeric value of a digit character (unspecified for non-digits).
pub open spec fn digit_val(c: char) -> nat {
    if c == '0' {
        0
    } else if c == '1' {
        1
    } else if c == '2' {
        2
    } else if c == '3' {
        3
    } else if c == '4' {
        4
    } else if c == '5' {
        5
    } else if c == '6' {
        6
    } else if c == '7' {
        7
    } else if c == '8' {
        8
    } else if c == '9' {
        9
    } else {
        10
    }
}

/// The digit character for a value below ten.
pub open spec fn digit_char(n: nat) -> char {
    if n == 0 {
        '0'
    } else if n == 1 {
        '1'
    } else if n == 2 {
        '2'
    } else if n == 3 {
        '3'
    } else if n == 4 {
        '4'
    } else if n == 5 {
        '5'
    } else if n == 6 {
        '6'
    } else if n == 7 {
        '7'
    } else if n == 8 {
        '8'
    } else {
        '9'
    }
}

pub open spec fn all_digits(s: Seq<char>) -> bool {
    forall|i: int| 0 <= i < s.len() ==> is_digit_char(s[i])
}

/// The value of a digit string, most significant digit first.
pub open spec fn dec_value(s: Seq<char>) -> nat
    decreases s.len(),
{
    if s.len() == 0 {
        0
    } else {
        dec_value(s.drop_last()) * 10 + digit_val(s.last())
    }
}

/// What a token means as an unsigned machine integer: a nonempty string of
/// digits whose value fits, and nothing else.
pub open spec fn parse_usize_token(s: Seq<char>) -> Option<usize> {
    if s.len() > 0 && all_digits(s) && dec_value(s) <= usize::MAX {
        Some(dec_value(s) as usize)
    } else {
        None
    }
}

/// The canonical decimal rendering of `n`: no sign, no leading zeros.
pub open spec fn render_usize(n: nat) -> Seq<char>
    decreases n,
{
    if n < 10 {
        seq![digit_char(n)]
    } else {
        render_usize(n / 10) + seq![digit_char(n % 10)]
    }
}

/// The rendering of a number is a nonempty digit string that parses back to
/// the same number, and holds no whitespace.
pub proof fn lemma_render_usize_ok(n: nat)
    ensures
        render_usize(n).len() >= 1,
        all_digits(render_usize(n)),
        dec_value(render_usize(n)) == n,
        forall|i: int| 0 <= i < render_usize(n).len() ==> !is_space_char(render_usize(n)[i]),
    decreases n,
{
    if n < 10 {
        assert(dec_value(render_usize(n)) == dec_value(Seq::<char>::empty()) * 10 + digit_val(
            digit_char(n),
        )) by {
            assert(render_usize(n).drop_last() =~= Seq::<char>::empty());
        }
    } else {
        lemma_render_usize_ok(n / 10);
        let a = render_usize(n / 10);
        let whole = render_usize(n);
        assert(whole =~= a + seq![digit_char(n % 10)]);
        assert(whole.drop_last() =~= a);
        assert(dec_value(whole) == dec_value(a) * 10 + digit_val(digit_char(n % 10)));
        assert(n / 10 * 10 + n % 10 == n) by (nonlinear_arith);
        assert(forall|i: int| 0 <= i < whole.len() ==> is_digit_char(#[trigger] whole[i])) by {
            assert(forall|i: int| 0 <= i < a.len() ==> whole[i] == a[i]);
        }
    }
    assert(forall|c: char| is_digit_char(c) ==> !is_space_char(c));
}

pub proof fn lemma_parse_render_usize(n: usize)
    ensures
        parse_usize_token(render_usize(n as nat)) == Some(n),
{
    lemma_render_usize_ok(n as nat);
}

/// The value of a digit string never shrinks as the string grows.
proof fn lemma_dec_value_prefix_le(s: Seq<char>, i: int, j: int)
    requires
        0 <= i <= j <= s.len(),
    ensures
        dec_value(s.subrange(0, i)) <= dec_value(s.subrange(0, j)),
    decreases j - i,
{
    if i < j {
        lemma_dec_value_prefix_le(s, i, j - 1);
        let p = s.subrange(0, j - 1);
        let q = s.subrange(0, j);
        assert(q.drop_last() =~= p);
        assert(dec_value(q) == dec_value(p) * 10 + digit_val(q.last()));
        assert(dec_value(p) * 10 >= dec_value(p)) by (nonlinear_arith);
    }
}

fn digit_of(c: char) -> (r: Option<u8>)
    ensures
        match r {
            Some(d) => is_digit_char(c) && d == digit_val(c),
            None => !is_digit_char(c),
        },
{
    if c == '0' {
        Some(0)
    } else if c == '1' {
        Some(1)
    } else if c == '2' {
        Some(2)
    } else if c == '3' {
        Some(3)
    } else if c == '4' {
        Some(4)
    } else if c == '5' {
        Some(5)
    } else if c == '6' {
        Some(6)
    } else if c == '7' {
        Some(7)
    } else if c == '8' {
        Some(8)
    } else if c == '9' {
        Some(9)
    } else {
        None
    }
}

/// Parses a whole token as an unsigned decimal number.
pub fn parse_usize(s: &str) -> (r: Option<usize>)
    ensures
        r == parse_usize_token(s@),
{
    let n = s.unicode_len();
    if n == 0 {
        proof {
            assert(parse_usize_token(s@) is None);
        }
        return None;
    }
    let mut acc: usize = 0;
    let mut i: usize = 0;
    while i < n
        invariant
            n == s@.len(),
            0 <= i <= n,
            all_digits(s@.subrange(0, i as int)),
            acc == dec_value(s@.subrange(0, i as int)),
        decreases n - i,
    {
        let c = s.get_char(i);
        let ghost pre = s@.subrange(0, i as int);
        let ghost cur = s@.subrange(0, i + 1);
        proof {
            assert(cur.drop_last() =~= pre);
            assert(cur.last() == s@[i as int]);
        }
        match digit_of(c) {
            None => {
                proof {
                    assert(!all_digits(s@)) by {
                        assert(!is_digit_char(s@[i as int]));
                    }
                }
                return None;
            },
            Some(d) => {
                match acc.checked_mul(10) {
                    None => {
                        proof {
                            assert(dec_value(cur) > usize::MAX);
                            lemma_dec_value_prefix_le(s@, i + 1, n as int);
                            assert(s@.subrange(0, n as int) =~= s@);
                        }
                        return None;
                    },
                    Some(a10) => {
                        match a10.checked_add(d as usize) {
                            None => {
                                proof {
                                    assert(dec_value(cur) > usize::MAX);
                                    lemma_dec_value_prefix_le(s@, i + 1, n as int);
                                    assert(s@.subrange(0, n as int) =~= s@);
                                }
                                return None;
                            },
                            Some(v) => {
                                acc = v;
                            },
                        }
                    },
                }
            },
        }
        i = i + 1;
    }
    proof {
        assert(s@.subrange(0, n as int) =~= s@);
    }
    Some(acc)
}

fn digit_str(d: usize) -> (r: &'static str)
    requires
        d < 10,
    ensures
        r@ == seq![digit_char(d as nat)],
{
    if d == 0 {
        let s = "0";
        proof {
            reveal_strlit("0");
            assert(s@ =~= seq![digit_char(0)]);
        }
        s
    } else if d == 1 {
        let s = "1";
        proof {
            reveal_strlit("1");
            assert(s@ =~= seq![digit_char(1)]);
        }
        s
    } else if d == 2 {
        let s = "2";
        proof {
            reveal_strlit("2");
            assert(s@ =~= seq![digit_char(2)]);
        }
        s
    } else if d == 3 {
        let s = "3";
        proof {
            reveal_strlit("3");
            assert(s@ =~= seq![digit_char(3)]);
        }
        s
    } else if d == 4 {
        let s = "4";
        proof {
            reveal_strlit("4");
            assert(s@ =~= seq![digit_char(4)]);
        }
        s
    } else if d == 5 {
        let s = "5";
        proof {
            reveal_strlit("5");
            assert(s@ =~= seq![digit_char(5)]);
        }
        s
    } else if d == 6 {
        let s = "6";
        proof {
            reveal_strlit("6");
            assert(s@ =~= seq![digit_char(6)]);
        }
        s
    } else if d == 7 {
        let s = "7";
        proof {
            reveal_strlit("7");
            assert(s@ =~= seq![digit_char(7)]);
        }
        s
    } else if d == 8 {
        let s = "8";
        proof {
            reveal_strlit("8");
            assert(s@ =~= seq![digit_char(8)]);
        }
        s
    } else {
        let s = "9";
        proof {
            reveal_strlit("9");
            assert(s@ =~= seq![digit_char(9)]);
        }
        s
    }
}

/// Renders `n` in decimal, most significant digit first.
pub fn usize_to_string(n: usize) -> (r: String)
    ensures
        r@ == render_usize(n as nat),
    decreases n,
{
    if n < 10 {
        digit_str(n).to_owned()
    } else {
        let mut s = usize_to_string(n / 10);
        s.append(digit_str(n % 10));
        proof {
            assert(s@ =~= render_usize(n as nat));
        }
        s
    }
}

} // verus!
