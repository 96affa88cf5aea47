//! Building blocks of the printed form: decimal numbers and string literals.
use vstd::prelude::*;

verus! {

/// The characters of Unicode's White_Space property.
#[verifier::opaque]
pub open spec fn unicode_white_space(c: char) -> bool {
    let u = c as u32;
    (0x09 <= u <= 0x0D) || u == 0x20 || u == 0x85 || u == 0xA0 || u == 0x1680 || (0x2000 <= u
        <= 0x200A) || u == 0x2028 || u == 0x2029 || u == 0x202F || u == 0x205F || u == 0x3000
}

/// Whether a character has Unicode's White_Space property, as
/// `char::is_whitespace` tells.
fn char_is_whitespace(c: char) -> (r: bool)
    ensures
        r == unicode_white_space(c),
{
    reveal(unicode_white_space);
    let u = c as u32;
    (0x09 <= u && u <= 0x0D) || u == 0x20 || u == 0x85 || u == 0xA0 || u == 0x1680 || (0x2000 <= u
        && u <= 0x200A) || u == 0x2028 || u == 0x2029 || u == 0x202F || u == 0x205F || u == 0x3000
}

/// `String::push`: appends one character.
#[verifier::external_body]
pub(crate) fn push_char(s: &mut String, c: char)
    ensures
        final(s)@ == old(s)@.push(c),
{
    s.push(c)
}

/// A character that a string literal shows as itself.
pub open spec fn plainly_printable(c: char) -> bool {
    &&& !unicode_white_space(c)
    &&& c != '('
    &&& c != ')'
    &&& (c as u32) > 0x1F
    &&& ((c as u32) < 0x7F || (c as u32) > 0x9F)
}

fn is_plainly_printable(c: char) -> (r: bool)
    ensures
        r == plainly_printable(c),
{
    !char_is_whitespace(c) && c != '(' && c != ')' && (c as u32) > 0x1F && ((c as u32) < 0x7F
        || (c as u32) > 0x9F)
}

pub open spec fn digit_char(d: nat) -> char {
    if d == 0 {
        '0'
    } else if d == 1 {
        '1'
    } else if d == 2 {
        '2'
    } else if d == 3 {
        '3'
    } else if d == 4 {
        '4'
    } else if d == 5 {
        '5'
    } else if d == 6 {
        '6'
    } else if d == 7 {
        '7'
    } else if d == 8 {
        '8'
    } else {
        '9'
    }
}

/// The decimal digits of a natural number, most significant first.
pub open spec fn decimal(n: nat) -> Seq<char>
    decreases n,
{
    if n < 10 {
        seq![digit_char(n)]
    } else {
        decimal(n / 10).push(digit_char(n % 10))
    }
}

/// The decimal form of an integer, with a leading `-` where it is negative.
pub open spec fn integer_text(i: int) -> Seq<char> {
    if i < 0 {
        seq!['-'] + decimal((-i) as nat)
    } else {
        decimal(i as nat)
    }
}

fn digit(d: u128) -> (c: char)
    requires
        d < 10,
    ensures
        c == digit_char(d as nat),
{
    if d == 0 {
        '0'
    } else if d == 1 {
        '1'
    } else if d == 2 {
        '2'
    } else if d == 3 {
        '3'
    } else if d == 4 {
        '4'
    } else if d == 5 {
        '5'
    } else if d == 6 {
        '6'
    } else if d == 7 {
        '7'
    } else if d == 8 {
        '8'
    } else {
        '9'
    }
}

/// Appends the decimal digits of `n`.
pub fn push_decimal(out: &mut String, n: u128)
    ensures
        final(out)@ == old(out)@ + decimal(n as nat),
    decreases n,
{
    if n >= 10 {
        push_decimal(out, n / 10);
    }
    push_char(out, digit(n % 10));
    proof {
        if n >= 10 {
            assert(old(out)@ + decimal(n as nat) =~= old(out)@ + decimal((n / 10) as nat) + seq![
                digit_char((n % 10) as nat),
            ]);
        }
    }
}

/// Appends the decimal form of `i`.
pub fn push_integer(out: &mut String, i: i128)
    ensures
        final(out)@ == old(out)@ + integer_text(i as int),
{
    if i < 0 {
        push_char(out, '-');
        let magnitude: u128 = ((-(i + 1)) as u128) + 1;
        push_decimal(out, magnitude);
        proof {
            assert(old(out)@ + integer_text(i as int) =~= old(out)@.push('-') + decimal(
                magnitude as nat,
            ));
        }
    } else {
        push_decimal(out, i as u128);
    }
}

/// Where a run of `k` copies of the non-printable character `c` stands: `(c)`
/// for a single one, `(c k)` for more, with `c` given by its code point.
pub open spec fn code_text(c: char, k: nat) -> Seq<char> {
    "("@ + decimal(c as nat) + (if k == 1 {
        Seq::<char>::empty()
    } else {
        " "@ + decimal(k)
    }) + ")"@
}

/// The number of leading copies of `c` in `t`.
pub open spec fn run_len(t: Seq<char>, c: char) -> nat
    decreases t.len(),
{
    if t.len() > 0 && t[0] == c {
        1 + run_len(t.drop_first(), c)
    } else {
        0
    }
}

pub proof fn lemma_run_len_bounds(t: Seq<char>, c: char)
    ensures
        run_len(t, c) <= t.len(),
        t.len() > 0 && t[0] == c ==> run_len(t, c) >= 1,
    decreases t.len(),
{
    if t.len() > 0 && t[0] == c {
        lemma_run_len_bounds(t.drop_first(), c);
    }
}

/// How a maximal run of `k` copies of the non-printable `c` stands, given
/// whether it starts the string and what follows it.
pub open spec fn run_piece(c: char, k: nat, at_start: bool, rest: Seq<char>) -> Seq<char> {
    if c == ' ' && k == 1 && !at_start && rest.len() > 0 && plainly_printable(rest[0]) {
        " "@
    } else {
        code_text(c, k)
    }
}

/// The body of a string literal. A plainly printable character stands for
/// itself; a maximal run of one other character stands as its `code_text`,
/// except a single space that lies between two printable characters, not at
/// the start, which stands as a space.
pub open spec fn rle_text(t: Seq<char>, at_start: bool) -> Seq<char>
    decreases t.len(),
{
    if t.len() == 0 {
        Seq::<char>::empty()
    } else if plainly_printable(t[0]) {
        seq![t[0]] + rle_text(t.drop_first(), false)
    } else {
        let k = run_len(t, t[0]);
        proof {
            lemma_run_len_bounds(t, t[0]);
        }
        let rest = t.skip(k as int);
        run_piece(t[0], k, at_start, rest) + rle_text(rest, false)
    }
}

/// The printed form of a string: `("`, a space where the string is not empty,
/// the `rle_text` of its characters, and `)`.
pub open spec fn string_text(s: Seq<char>) -> Seq<char> {
    "(\""@ + (if s.len() > 0 {
        " "@
    } else {
        Seq::<char>::empty()
    }) + rle_text(s, true) + ")"@
}

fn push_run(out: &mut String, c: char, k: usize)
    requires
        k > 0,
    ensures
        final(out)@ == old(out)@ + code_text(c, k as nat),
{
    out.append("(");
    push_decimal(out, c as u32 as u128);
    if k == 1 {
        out.append(")");
    } else {
        out.append(" ");
        push_decimal(out, k as u128);
        out.append(")");
    }
    proof {
        assert(out@ =~= old(out)@ + code_text(c, k as nat));
    }
}


fn chars_of(s: &str) -> (r: Vec<char>)
    ensures
        r@ == s@,
{
    let mut v: Vec<char> = Vec::new();
    for c in it: s.chars()
        invariant
            v@ == it.seq().take(it.index() as int),
    {
        v.push(c);
    }
    v
}

proof fn lemma_run_len_exact(t: Seq<char>, c: char, k: nat)
    requires
        k <= t.len(),
        forall|i: int| 0 <= i < k ==> t[i] == c,
        k == t.len() || t[k as int] != c,
    ensures
        run_len(t, c) == k,
    decreases k,
{
    if k > 0 {
        lemma_run_len_exact(t.drop_first(), c, (k - 1) as nat);
    }
}

/// A maximal run of one non-printable character at `j`, `k` long, stands as
/// its piece, followed by what comes after it.
proof fn lemma_rle_run(s: Seq<char>, j: int, k: nat, at_start: bool)
    requires
        0 <= j,
        k >= 1,
        j + k <= s.len(),
        !plainly_printable(s[j]),
        forall|i: int| j <= i < j + k ==> s[i] == s[j],
        j + k == s.len() || s[j + k] != s[j],
    ensures
        rle_text(s.skip(j), at_start) == run_piece(s[j], k, at_start, s.skip(j + k))
            + rle_text(s.skip(j + k), false),
{
    let t = s.skip(j);
    assert(t[0] == s[j]);
    lemma_run_len_exact(t, s[j], k);
    assert(t.skip(k as int) =~= s.skip(j + k));
}

proof fn lemma_rle_printable(s: Seq<char>, n: int, at_start: bool)
    requires
        0 <= n < s.len(),
        plainly_printable(s[n]),
    ensures
        rle_text(s.skip(n), at_start) == seq![s[n]] + rle_text(s.skip(n + 1), false),
{
    assert(s.skip(n).drop_first() =~= s.skip(n + 1));
}

/// Appends the printed form of the string `arg`.
pub fn push_string_literal(out: &mut String, arg: &str)
    ensures
        final(out)@ == old(out)@ + string_text(arg@),
{
    let s = chars_of(arg);
    let len = s.len();
    out.append("(\"");
    if len > 0 {
        out.append(" ");
    }
    let ghost base = out@;
    let mut prev_char = ' ';
    let mut rle: usize = 0;
    let mut n: usize = 0;
    proof {
        assert(s@.skip(0) =~= s@);
    }
    while n < len
        invariant
            len == s@.len(),
            s@ == arg@,
            n <= len,
            rle <= n,
            n == 0 ==> prev_char == ' ',
            n > 0 ==> prev_char == s@[n - 1],
            rle == 0 ==> (n == 0 || plainly_printable(s@[n - 1])),
            rle > 0 ==> {
                &&& !plainly_printable(prev_char)
                &&& forall|i: int| n - rle <= i < n ==> s@[i] == prev_char
                &&& (n - rle == 0 || s@[n - rle - 1] != prev_char)
            },
            base + rle_text(s@, true) == out@ + rle_text(s@.skip(n - rle), n - rle == 0),
        decreases len - n,
    {
        let ch = s[n];
        let ghost before = out@;
        if is_plainly_printable(ch) {
            if rle > 0 {
                proof {
                    lemma_rle_run(s@, n - rle, rle as nat, n - rle == 0);
                }
                if prev_char == ' ' && rle == 1 && n > 1 {
                    out.append(" ");
                } else {
                    push_run(out, prev_char, rle);
                }
            }
            proof {
                lemma_rle_printable(s@, n as int, n == 0);
                assert(s@.skip(n as int)[0] == ch);
            }
            push_char(out, ch);
            rle = 0;
            proof {
                assert(base + rle_text(s@, true) =~= out@ + rle_text(s@.skip(n + 1), false));
            }
        } else if ch != prev_char && rle > 0 {
            proof {
                lemma_rle_run(s@, n - rle, rle as nat, n - rle == 0);
            }
            push_run(out, prev_char, rle);
            rle = 1;
            proof {
                assert(base + rle_text(s@, true) =~= out@ + rle_text(s@.skip(n as int), false));
            }
        } else {
            rle = rle + 1;
        }
        prev_char = ch;
        n = n + 1;
    }
    proof {
        if rle > 0 {
            lemma_rle_run(s@, n - rle, rle as nat, n - rle == 0);
        } else {
            assert(s@.skip(n as int) =~= Seq::<char>::empty());
        }
    }
    if rle > 0 {
        push_run(out, prev_char, rle);
    }
    out.append(")");
    proof {
        assert(out@ =~= old(out)@ + string_text(arg@));
    }
}


pub open spec fn is_digit(c: char) -> bool {
    '0' <= c <= '9'
}

proof fn lemma_digit_char(d: nat, e: nat)
    requires
        d < 10,
        e < 10,
    ensures
        is_digit(digit_char(d)),
        digit_char(d) == digit_char(e) ==> d == e,
{
}

proof fn lemma_decimal_digits(n: nat)
    ensures
        decimal(n).len() >= 1,
        n >= 10 ==> decimal(n).len() >= 2,
        forall|i: int| 0 <= i < decimal(n).len() ==> is_digit(#[trigger] decimal(n)[i]),
    decreases n,
{
    lemma_digit_char(n % 10, 0);
    if n >= 10 {
        lemma_decimal_digits(n / 10);
        assert forall|i: int| 0 <= i < decimal(n).len() implies is_digit(#[trigger] decimal(n)[i]) by {
            if i < decimal(n / 10).len() {
                assert(decimal(n)[i] == decimal(n / 10)[i]);
            }
        }
    }
}

proof fn lemma_decimal_injective(a: nat, b: nat)
    requires
        decimal(a) == decimal(b),
    ensures
        a == b,
    decreases a,
{
    lemma_decimal_digits(a);
    lemma_decimal_digits(b);
    if a < 10 && b < 10 {
        assert(decimal(a)[0] == digit_char(a));
        assert(decimal(b)[0] == digit_char(b));
        lemma_digit_char(a, b);
    } else if a >= 10 && b >= 10 {
        assert(decimal(a).last() == digit_char(a % 10));
        assert(decimal(b).last() == digit_char(b % 10));
        lemma_digit_char(a % 10, b % 10);
        assert(a % 10 == b % 10);
        assert(decimal(a).drop_last() =~= decimal(a / 10));
        assert(decimal(b).drop_last() =~= decimal(b / 10));
        lemma_decimal_injective(a / 10, b / 10);
        assert(a == 10 * (a / 10) + a % 10);
        assert(b == 10 * (b / 10) + b % 10);
    } else {
        assert(decimal(a).len() != decimal(b).len());
    }
}

/// The digits of a number end where a character that is not a digit starts.
proof fn lemma_decimal_split(a: nat, b: nat, x: Seq<char>, y: Seq<char>)
    requires
        decimal(a) + x == decimal(b) + y,
        x.len() > 0 && !is_digit(x[0]),
        y.len() > 0 && !is_digit(y[0]),
    ensures
        a == b,
        x == y,
{
    lemma_decimal_digits(a);
    lemma_decimal_digits(b);
    let la = decimal(a).len() as int;
    let lb = decimal(b).len() as int;
    if la < lb {
        assert((decimal(a) + x)[la] == x[0]);
        assert((decimal(b) + y)[la] == decimal(b)[la]);
    } else if lb < la {
        assert((decimal(b) + y)[lb] == y[0]);
        assert((decimal(a) + x)[lb] == decimal(a)[lb]);
    } else {
        assert((decimal(a) + x).subrange(0, la) =~= decimal(a));
        assert((decimal(b) + y).subrange(0, lb) =~= decimal(b));
        lemma_decimal_injective(a, b);
        assert((decimal(a) + x).skip(la) =~= x);
        assert((decimal(b) + y).skip(lb) =~= y);
    }
}

/// A run's code is read back unambiguously from what follows it.
proof fn lemma_code_split(c1: char, k1: nat, c2: char, k2: nat, x: Seq<char>, y: Seq<char>)
    requires
        code_text(c1, k1) + x == code_text(c2, k2) + y,
    ensures
        c1 == c2,
        k1 == k2,
        x == y,
{
    reveal_strlit("(");
    reveal_strlit(")");
    reveal_strlit(" ");
    let tail1 = (if k1 == 1 {
        Seq::<char>::empty()
    } else {
        " "@ + decimal(k1)
    }) + ")"@ + x;
    let tail2 = (if k2 == 1 {
        Seq::<char>::empty()
    } else {
        " "@ + decimal(k2)
    }) + ")"@ + y;
    assert(code_text(c1, k1) + x =~= "("@ + (decimal(c1 as nat) + tail1));
    assert(code_text(c2, k2) + y =~= "("@ + (decimal(c2 as nat) + tail2));
    assert(("("@ + (decimal(c1 as nat) + tail1)).drop_first() =~= decimal(c1 as nat) + tail1);
    assert(("("@ + (decimal(c2 as nat) + tail2)).drop_first() =~= decimal(c2 as nat) + tail2);
    lemma_decimal_split(c1 as nat, c2 as nat, tail1, tail2);
    if k1 != 1 && k2 != 1 {
        let rest1 = ")"@ + x;
        let rest2 = ")"@ + y;
        assert(tail1 =~= " "@ + (decimal(k1) + rest1));
        assert(tail2 =~= " "@ + (decimal(k2) + rest2));
        assert(tail1.drop_first() =~= decimal(k1) + rest1);
        assert(tail2.drop_first() =~= decimal(k2) + rest2);
        lemma_decimal_split(k1, k2, rest1, rest2);
        assert(rest1.drop_first() =~= x);
        assert(rest2.drop_first() =~= y);
    } else if k1 == 1 && k2 == 1 {
        assert(tail1.drop_first() =~= x);
        assert(tail2.drop_first() =~= y);
    } else {
        assert(tail1[0] != tail2[0]);
    }
}

proof fn lemma_run_len_prefix(t: Seq<char>, c: char)
    ensures
        forall|i: int| 0 <= i < run_len(t, c) ==> t[i] == c,
    decreases t.len(),
{
    lemma_run_len_bounds(t, c);
    if t.len() > 0 && t[0] == c {
        lemma_run_len_prefix(t.drop_first(), c);
        assert forall|i: int| 0 <= i < run_len(t, c) implies t[i] == c by {
            if i > 0 {
                assert(t[i] == t.drop_first()[i - 1]);
            }
        }
    }
}

proof fn lemma_rle_nonempty(t: Seq<char>, at_start: bool)
    requires
        t.len() > 0,
    ensures
        rle_text(t, at_start).len() > 0,
        plainly_printable(t[0]) ==> rle_text(t, at_start)[0] == t[0],
        !plainly_printable(t[0]) ==> (rle_text(t, at_start)[0] == ' ' || rle_text(t, at_start)[0]
            == '('),
{
    reveal_strlit("(");
    reveal_strlit(" ");
    lemma_run_len_bounds(t, t[0]);
}

/// The body of a string literal is read back unambiguously from what follows
/// it, where that begins with the literal's closing bracket.
proof fn lemma_rle_split(s1: Seq<char>, s2: Seq<char>, at_start: bool, x: Seq<char>, y: Seq<char>)
    requires
        rle_text(s1, at_start) + x == rle_text(s2, at_start) + y,
        x.len() > 0 && x[0] == ')',
        y.len() > 0 && y[0] == ')',
    ensures
        s1 == s2,
        x == y,
    decreases s1.len() + s2.len(),
{
    reveal_strlit("(");
    reveal_strlit(" ");
    assert(!plainly_printable(' ')) by {
        reveal(unicode_white_space);
    }
    assert(!plainly_printable('('));
    assert(!plainly_printable(')'));
    if s1.len() == 0 && s2.len() == 0 {
        assert(rle_text(s1, at_start) + x =~= x);
        assert(rle_text(s2, at_start) + y =~= y);
        return;
    }
    if s1.len() == 0 {
        lemma_rle_nonempty(s2, at_start);
        assert((rle_text(s1, at_start) + x)[0] == x[0]);
        assert((rle_text(s2, at_start) + y)[0] == rle_text(s2, at_start)[0]);
        return;
    }
    if s2.len() == 0 {
        lemma_rle_nonempty(s1, at_start);
        assert((rle_text(s2, at_start) + y)[0] == y[0]);
        assert((rle_text(s1, at_start) + x)[0] == rle_text(s1, at_start)[0]);
        return;
    }
    lemma_rle_nonempty(s1, at_start);
    lemma_rle_nonempty(s2, at_start);
    let t = rle_text(s1, at_start) + x;
    assert(t[0] == rle_text(s1, at_start)[0]);
    assert(t[0] == rle_text(s2, at_start)[0]);
    if plainly_printable(s1[0]) {
        assert(plainly_printable(s2[0]));
        assert(s1[0] == s2[0]);
        let r1 = rle_text(s1.drop_first(), false);
        let r2 = rle_text(s2.drop_first(), false);
        assert(r1 + x =~= t.drop_first());
        assert(r2 + y =~= t.drop_first());
        lemma_rle_split(s1.drop_first(), s2.drop_first(), false, x, y);
        assert(s1 =~= seq![s1[0]] + s1.drop_first());
        assert(s2 =~= seq![s2[0]] + s2.drop_first());
    } else {
        assert(!plainly_printable(s2[0]));
        let c1 = s1[0];
        let c2 = s2[0];
        let k1 = run_len(s1, c1);
        let k2 = run_len(s2, c2);
        lemma_run_len_bounds(s1, c1);
        lemma_run_len_bounds(s2, c2);
        let rest1 = s1.skip(k1 as int);
        let rest2 = s2.skip(k2 as int);
        let p1 = run_piece(c1, k1, at_start, rest1);
        let p2 = run_piece(c2, k2, at_start, rest2);
        let r1 = rle_text(rest1, false);
        let r2 = rle_text(rest2, false);
        assert(t =~= p1 + (r1 + x));
        assert(t =~= p2 + (r2 + y));
        let space1 = c1 == ' ' && k1 == 1 && !at_start && rest1.len() > 0 && plainly_printable(
            rest1[0],
        );
        let space2 = c2 == ' ' && k2 == 1 && !at_start && rest2.len() > 0 && plainly_printable(
            rest2[0],
        );
        if !space1 {
            assert((p1 + (r1 + x))[0] == '(');
        }
        if !space2 {
            assert((p2 + (r2 + y))[0] == '(');
        }
        if space1 && space2 {
            assert((p1 + (r1 + x)).drop_first() =~= r1 + x);
            assert((p2 + (r2 + y)).drop_first() =~= r2 + y);
        } else if !space1 && !space2 {
            lemma_code_split(c1, k1, c2, k2, r1 + x, r2 + y);
        } else if space1 {
            assert((p1 + (r1 + x))[0] == ' ');
        } else {
            assert((p2 + (r2 + y))[0] == ' ');
        }
        assert(c1 == c2 && k1 == k2);
        lemma_rle_split(rest1, rest2, false, x, y);
        lemma_run_len_prefix(s1, c1);
        lemma_run_len_prefix(s2, c2);
        assert(s1 =~= s2) by {
            assert forall|i: int| 0 <= i < s1.len() implies s1[i] == s2[i] by {
                if i >= k1 {
                    assert(s1[i] == rest1[i - k1]);
                    assert(s2[i] == rest2[i - k2]);
                }
            }
        }
    }
}

/// A string literal is read back unambiguously from what follows it.
pub proof fn lemma_string_text_split(s1: Seq<char>, s2: Seq<char>, x: Seq<char>, y: Seq<char>)
    requires
        string_text(s1) + x == string_text(s2) + y,
    ensures
        s1 == s2,
        x == y,
{
    reveal_strlit("(\"");
    reveal_strlit(" ");
    reveal_strlit(")");
    let open1 = if s1.len() > 0 {
        " "@
    } else {
        Seq::<char>::empty()
    };
    let open2 = if s2.len() > 0 {
        " "@
    } else {
        Seq::<char>::empty()
    };
    let t = string_text(s1) + x;
    let b1 = rle_text(s1, true);
    let b2 = rle_text(s2, true);
    assert(t =~= "(\""@ + open1 + (b1 + (")"@ + x)));
    assert(t =~= "(\""@ + open2 + (b2 + (")"@ + y)));
    if s1.len() > 0 && s2.len() == 0 {
        assert(t[2] == ' ');
        assert(t[2] == ')');
    } else if s1.len() == 0 && s2.len() > 0 {
        assert(t[2] == ' ');
        assert(t[2] == ')');
    } else {
        let m = 2 + open1.len();
        assert(t.skip(m as int) =~= b1 + (")"@ + x));
        assert(t.skip(m as int) =~= b2 + (")"@ + y));
        lemma_rle_split(s1, s2, true, ")"@ + x, ")"@ + y);
        assert(x =~= (")"@ + x).drop_first());
        assert(y =~= (")"@ + y).drop_first());
    }
}

/// A string's printed form can be read back: different strings are printed
/// differently.
pub proof fn law_string_text_injective(s1: Seq<char>, s2: Seq<char>)
    requires
        string_text(s1) == string_text(s2),
    ensures
        s1 == s2,
{
    assert(string_text(s1) + Seq::<char>::empty() =~= string_text(s2) + Seq::<char>::empty());
    lemma_string_text_split(s1, s2, Seq::<char>::empty(), Seq::<char>::empty());
}

/// The decimal form of an integer begins with `-` or a digit.
pub proof fn lemma_integer_text_start(i: int)
    ensures
        integer_text(i).len() >= 1,
        integer_text(i)[0] == '-' || is_digit(integer_text(i)[0]),
{
    lemma_decimal_digits(if i < 0 { (-i) as nat } else { i as nat });
}

/// Every character of an integer's decimal form is `-` or a digit.
pub proof fn lemma_integer_text_chars(i: int)
    ensures
        forall|k: int|
            0 <= k < integer_text(i).len() ==> #[trigger] integer_text(i)[k] == '-' || is_digit(
                integer_text(i)[k],
            ),
{
    if i < 0 {
        let d = decimal((-i) as nat);
        lemma_decimal_digits((-i) as nat);
        assert forall|k: int| 0 < k < integer_text(i).len() implies #[trigger] integer_text(i)[k]
            == d[k - 1] by {}
    } else {
        lemma_decimal_digits(i as nat);
    }
}

/// An integer's decimal form is read back unambiguously from what follows it,
/// where that is empty or does not begin with a digit.
pub proof fn lemma_integer_text_split(i: int, j: int, x: Seq<char>, y: Seq<char>)
    requires
        integer_text(i) + x == integer_text(j) + y,
        x.len() == 0 || !is_digit(x[0]),
        y.len() == 0 || !is_digit(y[0]),
    ensures
        i == j,
        x == y,
{
    let end = seq![')'];
    assert(!is_digit(')'));
    assert((x + end)[0] == x[0] || x.len() == 0);
    assert((y + end)[0] == y[0] || y.len() == 0);
    assert(integer_text(i) + (x + end) =~= (integer_text(j) + y) + end);
    lemma_decimal_digits(if i < 0 { (-i) as nat } else { i as nat });
    lemma_decimal_digits(if j < 0 { (-j) as nat } else { j as nat });
    let t = integer_text(i) + (x + end);
    if i < 0 && j < 0 {
        let a = (-i) as nat;
        let b = (-j) as nat;
        assert(t.drop_first() =~= decimal(a) + (x + end));
        assert(t.drop_first() =~= decimal(b) + (y + end));
        lemma_decimal_split(a, b, x + end, y + end);
    } else if i >= 0 && j >= 0 {
        assert(t =~= decimal(i as nat) + (x + end));
        assert(t =~= decimal(j as nat) + (y + end));
        lemma_decimal_split(i as nat, j as nat, x + end, y + end);
    } else if i < 0 {
        assert(t[0] == '-');
        assert(t[0] == decimal(j as nat)[0]);
        assert(!is_digit('-'));
    } else {
        assert(t[0] == decimal(i as nat)[0]);
        assert((integer_text(j) + (y + end))[0] == '-');
        assert(!is_digit('-'));
    }
    assert(x =~= (x + end).subrange(0, x.len() as int));
    assert(y =~= (y + end).subrange(0, y.len() as int));
}

} // verus!
