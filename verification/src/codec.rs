//! The canonical JSON document for a replica, written and parsed by this
//! crate for persistence and transport.
//!
//! The writer emits one fixed shape with no whitespace:
//! `{"todos":{"items":[..],"server":b},"tasks":{"items":[..],"server":b},"server":b}`.
//! Numbers (dates as day counts, ids, sync ids) are 20-digit zero-padded
//! decimals in quotes; change markers are their names in quotes; a task's
//! done map is an array of seven entries, `null` or a date, indexed from
//! Monday. In item bodies the writer escapes only `"` and `\`; the parser
//! accepts exactly this canonical form and rejects everything else.

use vstd::assert_seqs_equal;
use vstd::arithmetic::div_mod::{lemma_div_denominator, lemma_fundamental_div_mod};
use vstd::prelude::*;

verus! {

/// Ten to the `k`-th power.
pub open spec fn pow10(k: nat) -> int
    decreases k,
{
    if k == 0 {
        1
    } else {
        10 * pow10((k - 1) as nat)
    }
}

/// The decimal digit character for `d`; a space for anything out of range.
pub open spec fn digit_char(d: int) -> char {
    if d == 0 {
        '0'
    } else if d == 1 {
        '1'
    } else if d == 2 {
        '2'
    } else if d == 3 {
        '3'
    } else if d == 4 {
        '4'
    } else if d == 5 {
        '5'
    } else if d == 6 {
        '6'
    } else if d == 7 {
        '7'
    } else if d == 8 {
        '8'
    } else if d == 9 {
        '9'
    } else {
        ' '
    }
}

/// The value of a decimal digit character; `-1` for anything else.
pub open spec fn digit_val(c: char) -> int {
    if c == '0' {
        0
    } else if c == '1' {
        1
    } else if c == '2' {
        2
    } else if c == '3' {
        3
    } else if c == '4' {
        4
    } else if c == '5' {
        5
    } else if c == '6' {
        6
    } else if c == '7' {
        7
    } else if c == '8' {
        8
    } else if c == '9' {
        9
    } else {
        -1
    }
}

/// The value of a sequence of decimal digit characters, most significant
/// first.
pub open spec fn val_of(s: Seq<char>) -> int
    decreases s.len(),
{
    if s.len() == 0 {
        0
    } else {
        val_of(s.drop_last()) * 10 + digit_val(s.last())
    }
}

/// The 20 digits of `v`, zero-padded, most significant first.
pub open spec fn nat20(v: u64) -> Seq<char> {
    Seq::new(20, |i: int| digit_char((v as int / pow10((19 - i) as nat)) % 10))
}

/// A number in the document: its 20 zero-padded digits in quotes.
pub open spec fn emit_nat(v: u64) -> Seq<char> {
    seq!['"'] + nat20(v) + seq!['"']
}

/// Reading the first `k` digits of `nat20(v)` yields `v` with its last
/// `20 - k` digits cut off.
proof fn lemma_val_nat20(v: u64, k: int)
    requires
        0 <= k <= 20,
    ensures
        val_of(nat20(v).take(k)) == v as int / pow10((20 - k) as nat),
        v as int / pow10(0) == v as int,
        pow10((20 - k) as nat) > 0,
    decreases k,
{
    lemma_pow10_pos((20 - k) as nat);
    if k == 0 {
        assert(nat20(v).take(0) =~= Seq::<char>::empty());
        lemma_pow10_pos(20);
        assert(v < pow10(20)) by {
            lemma_pow10_increases(v);
        }
        assert(v as int / pow10(20) == 0) by {
            vstd::arithmetic::div_mod::lemma_basic_div(v as int, pow10(20));
        }
    } else {
        lemma_val_nat20(v, k - 1);
        let pre = nat20(v).take(k);
        assert(pre.drop_last() =~= nat20(v).take(k - 1));
        assert(pre.last() == nat20(v)[k - 1]);
        assert(nat20(v)[k - 1] == digit_char((v as int / pow10((20 - k) as nat)) % 10));
        let q = v as int / pow10((20 - k) as nat);
        assert(0 <= q % 10 < 10) by {
            vstd::arithmetic::div_mod::lemma_mod_bound(q, 10);
        }
        assert(digit_val(digit_char(q % 10)) == q % 10);
        assert(val_of(pre) == val_of(nat20(v).take(k - 1)) * 10 + q % 10);
        assert(pow10((21 - k) as nat) == 10 * pow10((20 - k) as nat));
        lemma_pow10_pos((20 - k) as nat);
        assert(v as int / pow10((21 - k) as nat) == q / 10) by {
            lemma_div_denominator(v as int, pow10((20 - k) as nat), 10);
        }
        lemma_fundamental_div_mod(q, 10);
        assert(val_of(pre) == (q / 10) * 10 + q % 10);
    }
}

/// Ten to any power is positive.
proof fn lemma_pow10_pos(k: nat)
    ensures
        pow10(k) > 0,
    decreases k,
{
    if k > 0 {
        lemma_pow10_pos((k - 1) as nat);
    }
}

/// Ten to a power never shrinks as the power grows.
proof fn lemma_pow10_mono(a: nat, b: nat)
    requires
        a <= b,
    ensures
        pow10(a) <= pow10(b),
    decreases b,
{
    if a < b {
        lemma_pow10_mono(a, (b - 1) as nat);
        lemma_pow10_pos((b - 1) as nat);
    }
}

/// Every `u64` is below ten to the twentieth.
proof fn lemma_pow10_increases(v: u64)
    ensures
        (v as int) < pow10(20),
{
    assert(pow10(20) == 100_000_000_000_000_000_000) by {
        reveal_with_fuel(pow10, 21);
    }
}

/// The value of concatenated digit strings: the left part shifted by the
/// right part's width, plus the right part.
proof fn lemma_val_of_concat(a: Seq<char>, b: Seq<char>)
    ensures
        val_of(a + b) == val_of(a) * pow10(b.len()) + val_of(b),
    decreases b.len(),
{
    if b.len() == 0 {
        assert(a + b =~= a);
    } else {
        assert((a + b).drop_last() =~= a + b.drop_last());
        assert((a + b).last() == b.last());
        lemma_val_of_concat(a, b.drop_last());
        assert(val_of(a + b) == val_of(a + b.drop_last()) * 10 + digit_val(b.last()));
        assert(val_of(b) == val_of(b.drop_last()) * 10 + digit_val(b.last()));
        assert(pow10(b.len()) == 10 * pow10((b.len() - 1) as nat));
        assert(val_of(a + b) == val_of(a) * pow10(b.len()) + val_of(b)) by (nonlinear_arith)
            requires
                val_of(a + b) == (val_of(a) * pow10((b.len() - 1) as nat) + val_of(
                    b.drop_last(),
                )) * 10 + digit_val(b.last()),
                val_of(b) == val_of(b.drop_last()) * 10 + digit_val(b.last()),
                pow10(b.len()) == 10 * pow10((b.len() - 1) as nat),
        ;
    }
}

/// A string of decimal digits has a value within its width.
proof fn lemma_val_of_digit_bound(ds: Seq<char>)
    requires
        forall|j: int| 0 <= j < ds.len() ==> digit_val(#[trigger] ds[j]) >= 0,
    ensures
        0 <= val_of(ds) < pow10(ds.len()),
    decreases ds.len(),
{
    lemma_pow10_pos(ds.len());
    if ds.len() > 0 {
        assert(forall|j: int|
            0 <= j < ds.drop_last().len() ==> digit_val(#[trigger] ds.drop_last()[j]) >= 0);
        lemma_val_of_digit_bound(ds.drop_last());
        assert(digit_val(ds.last()) >= 0);
        assert(digit_val(ds.last()) <= 9);
        assert(pow10(ds.len()) == 10 * pow10((ds.len() - 1) as nat));
        assert(val_of(ds.drop_last()) * 10 + digit_val(ds.last()) < pow10(ds.len()))
            by (nonlinear_arith)
            requires
                0 <= val_of(ds.drop_last()) < pow10((ds.len() - 1) as nat),
                0 <= digit_val(ds.last()) <= 9,
                pow10(ds.len()) == 10 * pow10((ds.len() - 1) as nat),
        ;
    }
}

/// A 20-digit string is the digit form of its own value.
proof fn lemma_digits_of_val(ds: Seq<char>)
    requires
        ds.len() == 20,
        forall|j: int| 0 <= j < ds.len() ==> digit_val(#[trigger] ds[j]) >= 0,
        val_of(ds) <= u64::MAX,
    ensures
        nat20(val_of(ds) as u64) == ds,
{
    let v = val_of(ds);
    lemma_val_of_digit_bound(ds);
    assert forall|k: int| 0 <= k < 20 implies nat20(v as u64)[k] == ds[k] by {
        let hi = ds.take(k + 1);
        let lo = ds.skip(k + 1);
        assert(hi + lo =~= ds);
        lemma_val_of_concat(hi, lo);
        assert(forall|j: int| 0 <= j < lo.len() ==> digit_val(#[trigger] lo[j]) >= 0);
        lemma_val_of_digit_bound(lo);
        lemma_pow10_pos((19 - k) as nat);
        vstd::arithmetic::div_mod::lemma_fundamental_div_mod_converse_div(
            v,
            pow10((19 - k) as nat),
            val_of(hi),
            val_of(lo),
        );
        assert(hi.drop_last() =~= ds.take(k));
        assert(hi.last() == ds[k]);
        assert(0 <= digit_val(ds[k]) <= 9);
        vstd::arithmetic::div_mod::lemma_fundamental_div_mod_converse_mod(
            val_of(hi),
            10,
            val_of(ds.take(k)),
            digit_val(ds[k]),
        );
        assert(digit_char(digit_val(ds[k])) == ds[k]);
    }
    assert(nat20(v as u64) =~= ds);
}

/// Returns the decimal digit character for `d`.
fn digit_to_char(d: u64) -> (r: char)
    requires
        d < 10,
    ensures
        r == digit_char(d as int),
{
    if d == 0 {
        '0'
    } else if d == 1 {
        '1'
    } else if d == 2 {
        '2'
    } else if d == 3 {
        '3'
    } else if d == 4 {
        '4'
    } else if d == 5 {
        '5'
    } else if d == 6 {
        '6'
    } else if d == 7 {
        '7'
    } else if d == 8 {
        '8'
    } else {
        '9'
    }
}

/// Returns the value of a decimal digit character, or nothing for any other
/// character.
fn char_to_digit(c: char) -> (r: Option<u64>)
    ensures
        r is Some <==> digit_val(c) >= 0,
        r matches Some(d) ==> d == digit_val(c),
{
    match c {
        '0' => Some(0),
        '1' => Some(1),
        '2' => Some(2),
        '3' => Some(3),
        '4' => Some(4),
        '5' => Some(5),
        '6' => Some(6),
        '7' => Some(7),
        '8' => Some(8),
        '9' => Some(9),
        _ => None,
    }
}

/// Appends the document form of a number: its 20 zero-padded digits in
/// quotes.
fn emit_nat_into(out: &mut Vec<char>, v: u64)
    ensures
        final(out)@ == old(out)@ + emit_nat(v),
{
    out.push('"');
    let mut divisor: u64 = 10_000_000_000_000_000_000;
    proof {
        assert(divisor == pow10(19)) by {
            reveal_with_fuel(pow10, 20);
        }
    }
    let mut i: usize = 0;
    while i < 20
        invariant
            i <= 20,
            i < 20 ==> divisor == pow10((19 - i) as nat),
            out@ == old(out)@ + seq!['"'] + nat20(v).take(i as int),
        decreases 20 - i,
    {
        proof {
            lemma_pow10_pos((19 - i) as nat);
        }
        let d = (v / divisor) % 10;
        out.push(digit_to_char(d));
        proof {
            assert(nat20(v)[i as int] == digit_char((v as int / pow10((19 - i) as nat)) % 10));
            assert(v as int / pow10((19 - i) as nat) == (v / divisor) as int);
            assert_seqs_equal!(
                out@,
                old(out)@ + seq!['"'] + nat20(v).take(i + 1),
            );
        }
        if i < 19 {
            divisor = divisor / 10;
            proof {
                assert(pow10((19 - i) as nat) == 10 * pow10((18 - i) as nat));
            }
        }
        i += 1;
    }
    out.push('"');
    proof {
        assert(nat20(v).take(20) =~= nat20(v));
        assert_seqs_equal!(out@, old(out)@ + emit_nat(v));
    }
}

/// Under a canonical number at `pos`, the 20 characters behind the opening
/// quote are the number's digits.
proof fn lemma_nat_digits_read(s: Seq<char>, pos: int, v: u64)
    requires
        0 <= pos,
        pos + 22 <= s.len(),
        s.subrange(pos, pos + 22) == emit_nat(v),
    ensures
        s.subrange(pos + 1, pos + 21) == nat20(v).take(20),
{
    assert forall|j: int| 0 <= j < 20 implies s[pos + 1 + j] == nat20(v)[j] by {
        assert(s.subrange(pos, pos + 22)[1 + j] == s[pos + 1 + j]);
        assert(emit_nat(v)[1 + j] == (seq!['"'] + nat20(v))[1 + j]);
        assert((seq!['"'] + nat20(v))[1 + j] == nat20(v)[j]);
    }
    assert(s.subrange(pos + 1, pos + 21) =~= nat20(v).take(20));
}

/// Reads the document form of a number at `pos`: for every `v` whose
/// canonical form stands there, returns `v` and the position after it.
fn parse_nat(s: &[char], pos: usize) -> (r: Result<(u64, usize), crate::Error>)
    ensures
        forall|v: u64|
            #![trigger emit_nat(v)]
            pos + 22 <= s@.len() && s@.subrange(pos as int, pos as int + 22) == emit_nat(v)
                ==> r == Ok::<(u64, usize), crate::Error>((v, (pos + 22) as usize)),
        r matches Ok(p) ==> {
            &&& pos + 22 <= s@.len()
            &&& s@.subrange(pos as int, pos as int + 22) == emit_nat(p.0)
            &&& p.1 == pos + 22
        },
        r matches Ok(p) ==> pos < p.1 <= s@.len(),
{
    proof {
        assert forall|v: u64| #[trigger]
            emit_nat(v).len() == 22 && emit_nat(v)[0] == '"' && emit_nat(v)[21] == '"' by {
            assert(emit_nat(v).len() == 22);
        }
    }
    if s.len() < 22 || pos > s.len() - 22 {
        return Err(crate::Error::SerdeErr);
    }
    if s[pos] != '"' {
        proof {
            assert forall|v: u64| s@.subrange(pos as int, pos as int + 22) != emit_nat(v) by {
                assert(emit_nat(v)[0] == '"');
            }
        }
        return Err(crate::Error::SerdeErr);
    }
    let n = s.len();
    let mut acc: u128 = 0;
    let ghost mut ds: Seq<char> = Seq::empty();
    let mut i: usize = 0;
    while i < 20
        invariant
            i <= 20,
            pos + 22 <= s@.len(),
            n == s@.len(),
            ds == s@.subrange(pos + 1, pos + 1 + i),
            forall|j: int| 0 <= j < ds.len() ==> digit_val(#[trigger] ds[j]) >= 0,
            acc == val_of(ds),
            acc < pow10(i as nat),
        decreases 20 - i,
    {
        proof {
            lemma_pow10_pos(i as nat);
            lemma_pow10_mono(i as nat, 19);
            assert(pow10(19) < pow10(20)) by {
                lemma_pow10_pos(19);
            }
            assert(pow10(20) == 100_000_000_000_000_000_000) by {
                reveal_with_fuel(pow10, 21);
            }
        }
        let c = s[pos + 1 + i];
        match char_to_digit(c) {
            Some(d) => {
                proof {
                    assert(s@.subrange(pos + 1, pos + 1 + (i + 1)).drop_last() =~= s@.subrange(
                        pos + 1,
                        pos + 1 + i,
                    ));
                    assert(s@.subrange(pos + 1, pos + 1 + (i + 1)).last() == s@[pos + 1 + i]);
                    assert(pow10((i + 1) as nat) == 10 * pow10(i as nat));
                    ds = ds.push(c);
                    assert(ds =~= s@.subrange(pos + 1, pos + 1 + (i + 1)));
                    assert(ds.drop_last() =~= s@.subrange(pos + 1, pos + 1 + i));
                    assert(ds.last() == c);
                }
                acc = acc * 10 + (d as u128);
            },
            None => {
                proof {
                    assert forall|v: u64|
                        !(pos + 22 <= s@.len() && s@.subrange(pos as int, pos as int + 22)
                            == emit_nat(v)) by {
                        if s@.subrange(pos as int, pos as int + 22) == emit_nat(v) {
                            assert(emit_nat(v)[1 + i] == nat20(v)[i as int]);
                            assert(s@[pos + 1 + i] == emit_nat(v)[1 + i]);
                            let q = (v as int / pow10((19 - i) as nat)) % 10;
                            assert(0 <= q < 10) by {
                                vstd::arithmetic::div_mod::lemma_mod_bound(
                                    v as int / pow10((19 - i) as nat),
                                    10,
                                );
                            }
                            assert(digit_val(digit_char(q)) == q);
                        }
                    }
                }
                return Err(crate::Error::SerdeErr);
            },
        }
        i += 1;
    }
    if s[pos + 21] != '"' {
        proof {
            assert forall|v: u64| s@.subrange(pos as int, pos as int + 22) != emit_nat(v) by {
                assert(emit_nat(v)[21] == '"');
            }
        }
        return Err(crate::Error::SerdeErr);
    }
    if acc > u64::MAX as u128 {
        proof {
            assert forall|v: u64| s@.subrange(pos as int, pos as int + 22) != emit_nat(v) by {
                if s@.subrange(pos as int, pos as int + 22) == emit_nat(v) {
                    lemma_nat_digits_read(s@, pos as int, v);
                    lemma_val_nat20(v, 20);
                    assert(acc == v);
                }
            }
        }
        return Err(crate::Error::SerdeErr);
    }
    let result: u64 = acc as u64;
    proof {
        assert forall|v: u64|
            pos + 22 <= s@.len() && s@.subrange(pos as int, pos as int + 22) == emit_nat(v)
                implies result == v by {
            lemma_nat_digits_read(s@, pos as int, v);
            lemma_val_nat20(v, 20);
        }
        lemma_digits_of_val(ds);
        assert(nat20(result) == ds);
        assert(s@.subrange(pos as int, pos as int + 22)[0] == s@[pos as int]);
        assert(s@.subrange(pos as int, pos as int + 22)[21] == s@[pos + 21]);
        assert forall|j: int| 0 <= j < 20 implies s@.subrange(pos as int, pos as int + 22)[1 + j]
            == ds[j] by {
            assert(ds[j] == s@[pos + 1 + j]);
        }
        assert(s@.subrange(pos as int, pos as int + 22) =~= emit_nat(result));
    }
    Ok((result, pos + 22))
}


/// The decimal digits of `v`, most significant first, without leading zeros.
pub open spec fn dec_str(v: u64) -> Seq<char>
    decreases v,
{
    if v < 10 {
        seq![digit_char(v as int)]
    } else {
        dec_str(v / 10).push(digit_char((v % 10) as int))
    }
}

/// Returns the decimal digits of `v`, most significant first.
pub(crate) fn dec_chars(v: u64) -> (r: Vec<char>)
    ensures
        r@ == dec_str(v),
    decreases v,
{
    if v < 10 {
        let mut r: Vec<char> = Vec::new();
        r.push(digit_to_char(v));
        proof {
            assert_seqs_equal!(r@, dec_str(v));
        }
        r
    } else {
        let mut r = dec_chars(v / 10);
        r.push(digit_to_char(v % 10));
        r
    }
}

/// Relies on `str::chars`: the characters of a string, in order.
#[verifier::external_body]
fn str_chars(s: &str) -> (r: Vec<char>)
    ensures
        r@ == s@,
{
    s.chars().collect()
}

/// Relies on `String`'s `FromIterator<char>`: the string holding the given
/// characters, in order.
#[verifier::external_body]
pub(crate) fn chars_string(v: &Vec<char>) -> (r: String)
    ensures
        r@ == v@,
{
    v.iter().collect()
}

/// A window of a window of `s` is a window of `s`.
proof fn lemma_window(s: Seq<char>, pos: int, w: Seq<char>, off: int, piece: Seq<char>)
    requires
        0 <= pos,
        pos + w.len() <= s.len(),
        s.subrange(pos, pos + w.len()) == w,
        0 <= off,
        off + piece.len() <= w.len(),
        w.subrange(off, off + piece.len()) == piece,
    ensures
        s.subrange(pos + off, pos + off + piece.len()) == piece,
{
    assert forall|j: int| 0 <= j < piece.len() implies s[pos + off + j] == piece[j] by {
        assert(s.subrange(pos, pos + w.len())[off + j] == s[pos + off + j]);
        assert(w.subrange(off, off + piece.len())[j] == w[off + j]);
    }
    assert(s.subrange(pos + off, pos + off + piece.len()) =~= piece);
}

/// Adjacent windows of `s` join into a window over their concatenation.
proof fn lemma_join(s: Seq<char>, pos: int, a: Seq<char>, b: Seq<char>)
    requires
        0 <= pos,
        pos + a.len() <= s.len(),
        s.subrange(pos, pos + a.len() as int) == a,
        pos + a.len() + b.len() <= s.len(),
        s.subrange(pos + a.len(), pos + a.len() + b.len()) == b,
    ensures
        s.subrange(pos, pos + a.len() + b.len()) == a + b,
{
    assert forall|j: int| 0 <= j < a.len() + b.len() implies s[pos + j] == (a + b)[j] by {
        if j < a.len() {
            assert(s.subrange(pos, pos + a.len() as int)[j] == s[pos + j]);
        } else {
            assert(s.subrange(pos + a.len(), pos + a.len() + b.len())[j - a.len()] == s[pos
                + j]);
        }
    }
    assert(s.subrange(pos, pos + a.len() + b.len()) =~= a + b);
}

/// Appends the characters of a fixed piece of document text.
fn push_lit(out: &mut Vec<char>, lit: &str)
    ensures
        final(out)@ == old(out)@ + lit@,
{
    let cs = str_chars(lit);
    let mut i: usize = 0;
    while i < cs.len()
        invariant
            i <= cs@.len(),
            cs@ == lit@,
            out@ == old(out)@ + cs@.take(i as int),
        decreases cs@.len() - i,
    {
        out.push(cs[i]);
        proof {
            assert(out@ == old(out)@ + cs@.take(i + 1));
        }
        i += 1;
    }
    proof {
        assert(cs@.take(cs@.len() as int) == cs@);
    }
}

/// Checks that the fixed piece of document text `lit` stands at `pos`,
/// returning the position after it.
fn expect_lit(s: &[char], pos: usize, lit: &str) -> (r: Result<usize, crate::Error>)
    ensures
        pos + lit@.len() <= s@.len() && s@.subrange(pos as int, pos as int + lit@.len() as int)
            == lit@ ==> r == Ok::<usize, crate::Error>((pos + lit@.len()) as usize),
        r matches Ok(e) ==> {
            &&& e == pos + lit@.len()
            &&& pos + lit@.len() <= s@.len()
            &&& s@.subrange(pos as int, pos as int + lit@.len() as int) == lit@
        },
{
    let cs = str_chars(lit);
    let n = s.len();
    if cs.len() > n || pos > n - cs.len() {
        return Err(crate::Error::SerdeErr);
    }
    let mut i: usize = 0;
    while i < cs.len()
        invariant
            i <= cs@.len(),
            cs@ == lit@,
            n == s@.len(),
            pos + cs@.len() <= n,
            forall|j: int| 0 <= j < i ==> s@[pos + j] == cs@[j],
        decreases cs@.len() - i,
    {
        if s[pos + i] != cs[i] {
            proof {
                if s@.subrange(pos as int, pos as int + lit@.len() as int) == lit@ {
                    assert(s@.subrange(pos as int, pos as int + lit@.len() as int)[i as int]
                        == s@[pos + i]);
                }
            }
            return Err(crate::Error::SerdeErr);
        }
        i += 1;
    }
    proof {
        assert(s@.subrange(pos as int, pos as int + lit@.len() as int) =~= lit@);
    }
    Ok(pos + cs.len())
}

/// The document form of one body character: `"` and `\` behind a backslash,
/// every other character as itself.
pub open spec fn esc(c: char) -> Seq<char> {
    if c == '"' || c == '\\' {
        seq!['\\', c]
    } else {
        seq![c]
    }
}

/// The document form of a body's characters, escaped.
pub open spec fn emit_str_chars(s: Seq<char>) -> Seq<char>
    decreases s.len(),
{
    if s.len() == 0 {
        Seq::empty()
    } else {
        emit_str_chars(s.drop_last()) + esc(s.last())
    }
}

/// The document form of a body: its escaped characters in quotes.
pub open spec fn emit_string(s: Seq<char>) -> Seq<char> {
    seq!['"'] + emit_str_chars(s) + seq!['"']
}

/// Escaping distributes over concatenation.
proof fn lemma_emit_str_concat(a: Seq<char>, b: Seq<char>)
    ensures
        emit_str_chars(a + b) == emit_str_chars(a) + emit_str_chars(b),
    decreases b.len(),
{
    if b.len() == 0 {
        assert(a + b =~= a);
        assert(emit_str_chars(a) + emit_str_chars(b) =~= emit_str_chars(a));
    } else {
        assert((a + b).drop_last() =~= a + b.drop_last());
        assert((a + b).last() == b.last());
        lemma_emit_str_concat(a, b.drop_last());
        assert(emit_str_chars(a) + emit_str_chars(b.drop_last()) + esc(b.last())
            =~= emit_str_chars(a) + (emit_str_chars(b.drop_last()) + esc(b.last())));
    }
}

/// True when the document form of the body `cs` stands at `pos` in `s`.
pub open spec fn string_at(s: Seq<char>, pos: int, cs: Seq<char>) -> bool {
    &&& 0 <= pos
    &&& pos + emit_string(cs).len() <= s.len()
    &&& s.subrange(pos, pos + emit_string(cs).len()) == emit_string(cs)
}

/// Under a canonical string at `pos`, what the scanner sees after `k` body
/// characters: the closing quote when all are read, else the escape unit of
/// the next one.
#[verifier::rlimit(100)]
#[verifier::spinoff_prover]
proof fn lemma_str_next(s: Seq<char>, pos: int, cs: Seq<char>, k: int)
    requires
        string_at(s, pos, cs),
        0 <= k <= cs.len(),
    ensures
        pos + 1 + emit_str_chars(cs.take(k)).len() + 1 <= s.len(),
        emit_str_chars(cs.take(k)).len() <= emit_str_chars(cs).len(),
        k == cs.len() ==> s[pos + 1 + emit_str_chars(cs.take(k)).len()] == '"',
        k < cs.len() ==> {
            let cur = pos + 1 + emit_str_chars(cs.take(k)).len();
            &&& cur + esc(cs[k]).len() + 1 <= s.len()
            &&& s.subrange(cur, cur + esc(cs[k]).len()) == esc(cs[k])
            &&& emit_str_chars(cs.take(k + 1)) == emit_str_chars(cs.take(k)) + esc(cs[k])
        },
{
    let w = emit_string(cs);
    let body = emit_str_chars(cs);
    assert(cs.take(k) + cs.skip(k) =~= cs);
    lemma_emit_str_concat(cs.take(k), cs.skip(k));
    assert(body == emit_str_chars(cs.take(k)) + emit_str_chars(cs.skip(k)));
    if k == cs.len() {
        assert(cs.skip(k) =~= Seq::<char>::empty());
        assert(emit_str_chars(cs.take(k)).len() == body.len());
        assert(w[1 + body.len() as int] == '"');
        assert(s.subrange(pos, pos + w.len())[1 + body.len() as int] == s[pos + 1
            + body.len() as int]);
    } else {
        assert(cs.take(k + 1).drop_last() =~= cs.take(k));
        assert(cs.take(k + 1).last() == cs[k]);
        assert(emit_str_chars(cs.take(k + 1)) == emit_str_chars(cs.take(k)) + esc(cs[k]));
        assert(cs.take(k + 1) + cs.skip(k + 1) =~= cs);
        lemma_emit_str_concat(cs.take(k + 1), cs.skip(k + 1));
        let off: int = 1 + emit_str_chars(cs.take(k)).len() as int;
        assert forall|j: int| 0 <= j < esc(cs[k]).len() implies w[off + j] == esc(cs[k])[j] by {
            assert(body == emit_str_chars(cs.take(k)) + esc(cs[k]) + emit_str_chars(
                cs.skip(k + 1),
            ));
            assert(body[off - 1 + j] == esc(cs[k])[j]);
            assert(w[off + j] == body[off - 1 + j]);
        }
        assert(w.subrange(off, off + esc(cs[k]).len()) =~= esc(cs[k]));
        lemma_window(s, pos, w, off, esc(cs[k]));
        assert(w[1 + body.len() as int] == '"');
        assert(s.subrange(pos, pos + w.len())[1 + body.len() as int] == s[pos + 1
            + body.len() as int]);
    }
}

/// Appends the document form of a body string.
fn emit_string_into(out: &mut Vec<char>, body: &str)
    ensures
        final(out)@ == old(out)@ + emit_string(body@),
{
    let cs = str_chars(body);
    out.push('"');
    let mut i: usize = 0;
    while i < cs.len()
        invariant
            i <= cs@.len(),
            cs@ == body@,
            out@ == old(out)@ + seq!['"'] + emit_str_chars(cs@.take(i as int)),
        decreases cs@.len() - i,
    {
        let c = cs[i];
        proof {
            assert(cs@.take(i + 1).drop_last() =~= cs@.take(i as int));
            assert(cs@.take(i + 1).last() == cs@[i as int]);
        }
        if c == '"' || c == '\\' {
            out.push('\\');
            out.push(c);
        } else {
            out.push(c);
        }
        proof {
            assert_seqs_equal!(
                out@,
                old(out)@ + seq!['"'] + emit_str_chars(cs@.take(i + 1)),
            );
        }
        i += 1;
    }
    out.push('"');
    proof {
        assert(cs@.take(cs@.len() as int) == cs@);
        assert_seqs_equal!(out@, old(out)@ + emit_string(body@));
    }
}

/// Reads the document form of a body string at `pos`: for every body whose
/// canonical form stands there, returns its characters and the position after
/// the closing quote.
fn parse_string(s: &[char], pos: usize) -> (r: Result<(Vec<char>, usize), crate::Error>)
    ensures
        forall|cs: Seq<char>|
            #![trigger string_at(s@, pos as int, cs)]
            string_at(s@, pos as int, cs) ==> (r matches Ok(p) && p.0@ == cs && p.1 == pos
                + emit_string(cs).len()),
        r matches Ok(p) ==> string_at(s@, pos as int, p.0@) && p.1 == pos + emit_string(
            p.0@,
        ).len(),
        r matches Ok(p) ==> pos < p.1 <= s@.len(),
{
    let n = s.len();
    if pos >= n || s[pos] != '"' {
        proof {
            assert forall|cs: Seq<char>| !string_at(s@, pos as int, cs) by {
                if string_at(s@, pos as int, cs) {
                    assert(s@.subrange(
                        pos as int,
                        pos as int + emit_string(cs).len(),
                    )[0] == '"');
                }
            }
        }
        return Err(crate::Error::SerdeErr);
    }
    let mut out: Vec<char> = Vec::new();
    let mut cur: usize = pos + 1;
    proof {
        assert(s@.subrange(pos + 1, pos + 1) =~= emit_str_chars(out@));
    }
    loop
        invariant
            pos + 1 <= cur <= n,
            n == s@.len(),
            pos < n,
            s@[pos as int] == '"',
            s@.subrange(pos + 1, cur as int) == emit_str_chars(out@),
            forall|cs: Seq<char>|
                string_at(s@, pos as int, cs) ==> {
                    &&& out@.len() <= cs.len()
                    &&& out@ == cs.take(out@.len() as int)
                    &&& cur == pos + 1 + emit_str_chars(cs.take(out@.len() as int)).len()
                },
        decreases n - cur,
    {
        if cur >= n {
            proof {
                assert forall|cs: Seq<char>| !string_at(s@, pos as int, cs) by {
                    if string_at(s@, pos as int, cs) {
                        lemma_str_next(s@, pos as int, cs, out@.len() as int);
                    }
                }
            }
            return Err(crate::Error::SerdeErr);
        }
        let c = s[cur];
        if c == '"' {
            let end = cur + 1;
            proof {
                assert forall|cs: Seq<char>|
                    string_at(s@, pos as int, cs) implies out@ == cs && end == pos + emit_string(
                    cs,
                ).len() by {
                    let k = out@.len() as int;
                    lemma_str_next(s@, pos as int, cs, k);
                    if k < cs.len() {
                        assert(s@[cur as int] == esc(cs[k])[0]);
                        assert(false);
                    }
                    assert(cs.take(k) == cs);
                }
                assert(s@.subrange(pos as int, end as int) =~= emit_string(out@));
            }
            return Ok((out, end));
        } else if c == '\\' {
            if cur + 1 >= n {
                proof {
                    assert forall|cs: Seq<char>| !string_at(s@, pos as int, cs) by {
                        if string_at(s@, pos as int, cs) {
                            let k = out@.len() as int;
                            lemma_str_next(s@, pos as int, cs, k);
                            if k < cs.len() {
                                assert(s@[cur as int] == esc(cs[k])[0]);
                                assert(esc(cs[k]).len() == 2);
                            }
                        }
                    }
                }
                return Err(crate::Error::SerdeErr);
            }
            let c2 = s[cur + 1];
            if c2 == '"' || c2 == '\\' {
                proof {
                    let ghost pre = out@;
                    assert forall|cs: Seq<char>|
                        string_at(s@, pos as int, cs) implies {
                        &&& pre.len() < cs.len()
                        &&& cs[pre.len() as int] == c2
                        &&& cur + 2 == pos + 1 + emit_str_chars(
                            cs.take(pre.len() as int + 1),
                        ).len()
                    } by {
                        let k = pre.len() as int;
                        lemma_str_next(s@, pos as int, cs, k);
                        assert(k < cs.len());
                        assert(s@[cur as int] == esc(cs[k])[0]);
                        assert(esc(cs[k]).len() == 2);
                        assert(s@[cur + 1] == esc(cs[k])[1]);
                        assert(s@.subrange(cur as int, cur as int + 2)[1] == s@[cur + 1]);
                    }
                }
                let ghost pre_out = out@;
                out.push(c2);
                cur = cur + 2;
                proof {
                    assert forall|cs: Seq<char>|
                        string_at(s@, pos as int, cs) implies {
                        &&& out@.len() <= cs.len()
                        &&& out@ == cs.take(out@.len() as int)
                        &&& cur == pos + 1 + emit_str_chars(cs.take(out@.len() as int)).len()
                    } by {
                        assert(cs.take(out@.len() as int) =~= cs.take(
                            out@.len() - 1,
                        ).push(cs[out@.len() - 1]));
                    }
                    assert(out@.drop_last() =~= pre_out);
                    assert(out@.last() == c2);
                    assert(emit_str_chars(out@) == emit_str_chars(pre_out) + esc(c2));
                    assert_seqs_equal!(s@.subrange(pos + 1, cur as int), emit_str_chars(out@));
                }
            } else {
                proof {
                    assert forall|cs: Seq<char>| !string_at(s@, pos as int, cs) by {
                        if string_at(s@, pos as int, cs) {
                            let k = out@.len() as int;
                            lemma_str_next(s@, pos as int, cs, k);
                            if k < cs.len() {
                                assert(s@[cur as int] == esc(cs[k])[0]);
                                assert(esc(cs[k]).len() == 2);
                                assert(s@[cur + 1] == esc(cs[k])[1]);
                                assert(s@.subrange(cur as int, cur as int + 2)[1] == s@[cur
                                    + 1]);
                            }
                        }
                    }
                }
                return Err(crate::Error::SerdeErr);
            }
        } else {
            proof {
                let ghost pre = out@;
                assert forall|cs: Seq<char>|
                    string_at(s@, pos as int, cs) implies {
                    &&& pre.len() < cs.len()
                    &&& cs[pre.len() as int] == c
                    &&& cur + 1 == pos + 1 + emit_str_chars(cs.take(pre.len() as int + 1)).len()
                } by {
                    let k = pre.len() as int;
                    lemma_str_next(s@, pos as int, cs, k);
                    assert(k < cs.len());
                    assert(s@[cur as int] == esc(cs[k])[0]);
                }
            }
            let ghost pre_out = out@;
            out.push(c);
            cur = cur + 1;
            proof {
                assert forall|cs: Seq<char>|
                    string_at(s@, pos as int, cs) implies {
                    &&& out@.len() <= cs.len()
                    &&& out@ == cs.take(out@.len() as int)
                    &&& cur == pos + 1 + emit_str_chars(cs.take(out@.len() as int)).len()
                } by {
                    assert(cs.take(out@.len() as int) =~= cs.take(out@.len() - 1).push(
                        cs[out@.len() - 1],
                    ));
                }
                assert(out@.drop_last() =~= pre_out);
                assert(out@.last() == c);
                assert(emit_str_chars(out@) == emit_str_chars(pre_out) + esc(c));
                assert_seqs_equal!(s@.subrange(pos + 1, cur as int), emit_str_chars(out@));
            }
        }
    }
}

/// The document form of a role flag.
pub open spec fn emit_bool(b: bool) -> Seq<char> {
    if b {
        ("true")@
    } else {
        ("false")@
    }
}

/// Appends the document form of a role flag.
fn emit_bool_into(out: &mut Vec<char>, b: bool)
    ensures
        final(out)@ == old(out)@ + emit_bool(b),
{
    if b {
        push_lit(out, "true");
    } else {
        push_lit(out, "false");
    }
}

/// Reads the document form of a role flag at `pos`.
fn parse_bool(s: &[char], pos: usize) -> (r: Result<(bool, usize), crate::Error>)
    ensures
        forall|b: bool|
            #![trigger emit_bool(b)]
            pos + emit_bool(b).len() <= s@.len() && s@.subrange(
                pos as int,
                pos as int + emit_bool(b).len() as int,
            ) == emit_bool(b) ==> r == Ok::<(bool, usize), crate::Error>(
                (b, (pos + emit_bool(b).len()) as usize),
            ),
        r matches Ok(p) ==> {
            &&& pos + emit_bool(p.0).len() <= s@.len()
            &&& s@.subrange(pos as int, pos as int + emit_bool(p.0).len() as int) == emit_bool(
                p.0,
            )
            &&& p.1 == pos + emit_bool(p.0).len()
        },
        r matches Ok(p) ==> pos < p.1 <= s@.len(),
{
    proof {
        reveal_strlit("true");
        reveal_strlit("false");
    }
    match expect_lit(s, pos, "true") {
        Ok(e) => {
            proof {
                assert forall|b: bool|
                    pos + emit_bool(b).len() <= s@.len() && s@.subrange(
                        pos as int,
                        pos as int + emit_bool(b).len() as int,
                    ) == emit_bool(b) implies b by {
                    if !b {
                        assert(s@[pos as int] == ("false")@[0]);
                        assert(s@.subrange(pos as int, pos as int + 4)[0] == s@[pos as int]);
                        assert(s@[pos as int] == ("true")@[0]);
                    }
                }
            }
            return Ok((true, e));
        },
        Err(_) => {},
    }
    match expect_lit(s, pos, "false") {
        Ok(e) => Ok((false, e)),
        Err(_) => Err(crate::Error::SerdeErr),
    }
}

/// The document form of a change marker: its name in quotes.
pub open spec fn emit_state(st: crate::sync::ItemState) -> Seq<char> {
    match st {
        crate::sync::ItemState::New => ("\"New\"")@,
        crate::sync::ItemState::Removed => ("\"Removed\"")@,
        crate::sync::ItemState::Unchanged => ("\"Unchanged\"")@,
        crate::sync::ItemState::Changed => ("\"Changed\"")@,
    }
}

/// Appends the document form of a change marker.
fn emit_state_into(out: &mut Vec<char>, st: crate::sync::ItemState)
    ensures
        final(out)@ == old(out)@ + emit_state(st),
{
    match st {
        crate::sync::ItemState::New => push_lit(out, "\"New\""),
        crate::sync::ItemState::Removed => push_lit(out, "\"Removed\""),
        crate::sync::ItemState::Unchanged => push_lit(out, "\"Unchanged\""),
        crate::sync::ItemState::Changed => push_lit(out, "\"Changed\""),
    }
}

/// Reads the document form of a change marker at `pos`.
fn parse_state(s: &[char], pos: usize) -> (r: Result<
    (crate::sync::ItemState, usize),
    crate::Error,
>)
    ensures
        forall|st: crate::sync::ItemState|
            #![trigger emit_state(st)]
            pos + emit_state(st).len() <= s@.len() && s@.subrange(
                pos as int,
                pos as int + emit_state(st).len() as int,
            ) == emit_state(st) ==> r == Ok::<(crate::sync::ItemState, usize), crate::Error>(
                (st, (pos + emit_state(st).len()) as usize),
            ),
        r matches Ok(p) ==> {
            &&& pos + emit_state(p.0).len() <= s@.len()
            &&& s@.subrange(pos as int, pos as int + emit_state(p.0).len() as int) == emit_state(
                p.0,
            )
            &&& p.1 == pos + emit_state(p.0).len()
        },
        r matches Ok(p) ==> pos < p.1 <= s@.len(),
{
    proof {
        reveal_strlit("\"New\"");
        reveal_strlit("\"Removed\"");
        reveal_strlit("\"Unchanged\"");
        reveal_strlit("\"Changed\"");
    }
    let ghost gs = s@;
    let ghost gp = pos as int;
    proof {
        assert forall|st: crate::sync::ItemState|
            gp + emit_state(st).len() <= gs.len() && gs.subrange(
                gp,
                gp + emit_state(st).len() as int,
            ) == emit_state(st) implies gs[gp + 1] == emit_state(st)[1] by {
            assert(gs.subrange(gp, gp + emit_state(st).len() as int)[1] == gs[gp + 1]);
        }
    }
    match expect_lit(s, pos, "\"New\"") {
        Ok(e) => {
            return Ok((crate::sync::ItemState::New, e));
        },
        Err(_) => {},
    }
    match expect_lit(s, pos, "\"Removed\"") {
        Ok(e) => {
            return Ok((crate::sync::ItemState::Removed, e));
        },
        Err(_) => {},
    }
    match expect_lit(s, pos, "\"Unchanged\"") {
        Ok(e) => {
            return Ok((crate::sync::ItemState::Unchanged, e));
        },
        Err(_) => {},
    }
    match expect_lit(s, pos, "\"Changed\"") {
        Ok(e) => {
            return Ok((crate::sync::ItemState::Changed, e));
        },
        Err(_) => {},
    }
    Err(crate::Error::SerdeErr)
}

/// The document form of an optional completion date: `null`, or the date's
/// day count as a number.
pub open spec fn emit_opt_date(o: Option<crate::date::Date>) -> Seq<char> {
    match o {
        None => ("null")@,
        Some(d) => emit_nat(d.days),
    }
}

/// Appends the document form of an optional completion date.
fn emit_opt_date_into(out: &mut Vec<char>, o: &Option<crate::date::Date>)
    ensures
        final(out)@ == old(out)@ + emit_opt_date(*o),
{
    match o {
        None => push_lit(out, "null"),
        Some(d) => emit_nat_into(out, d.days),
    }
}

/// Reads the document form of an optional completion date at `pos`.
fn parse_opt_date(s: &[char], pos: usize) -> (r: Result<
    (Option<crate::date::Date>, usize),
    crate::Error,
>)
    ensures
        forall|o: Option<crate::date::Date>|
            #![trigger emit_opt_date(o)]
            pos + emit_opt_date(o).len() <= s@.len() && s@.subrange(
                pos as int,
                pos as int + emit_opt_date(o).len() as int,
            ) == emit_opt_date(o) ==> r == Ok::<
                (Option<crate::date::Date>, usize),
                crate::Error,
            >((o, (pos + emit_opt_date(o).len()) as usize)),
        r matches Ok(p) ==> {
            &&& pos + emit_opt_date(p.0).len() <= s@.len()
            &&& s@.subrange(pos as int, pos as int + emit_opt_date(p.0).len() as int)
                == emit_opt_date(p.0)
            &&& p.1 == pos + emit_opt_date(p.0).len()
        },
        r matches Ok(p) ==> pos < p.1 <= s@.len(),
{
    proof {
        reveal_strlit("null");
    }
    match expect_lit(s, pos, "null") {
        Ok(e) => {
            proof {
                assert forall|o: Option<crate::date::Date>|
                    pos + emit_opt_date(o).len() <= s@.len() && s@.subrange(
                        pos as int,
                        pos as int + emit_opt_date(o).len() as int,
                    ) == emit_opt_date(o) implies o is None by {
                    match o {
                        Some(d) => {
                            assert(s@.subrange(pos as int, pos as int + 22)[0] == s@[pos as int]);
                            assert(emit_nat(d.days)[0] == '"');
                            assert(s@.subrange(pos as int, pos as int + 4)[0] == s@[pos as int]);
                        },
                        None => {},
                    }
                }
            }
            return Ok((None, e));
        },
        Err(_) => {},
    }
    match parse_nat(s, pos) {
        Ok((v, e)) => {
            proof {
                assert forall|o: Option<crate::date::Date>|
                    pos + emit_opt_date(o).len() <= s@.len() && s@.subrange(
                        pos as int,
                        pos as int + emit_opt_date(o).len() as int,
                    ) == emit_opt_date(o) implies (o matches Some(d) && d.days == v) by {
                    if o is None {
                        assert(s@.subrange(pos as int, pos as int + 4) == ("null")@);
                    }
                }
            }
            Ok((Some(crate::date::Date { days: v }), e))
        },
        Err(_) => {
            proof {
                assert forall|o: Option<crate::date::Date>|
                    !(pos + emit_opt_date(o).len() <= s@.len() && s@.subrange(
                        pos as int,
                        pos as int + emit_opt_date(o).len() as int,
                    ) == emit_opt_date(o)) by {}
            }
            Err(crate::Error::SerdeErr)
        },
    }
}

/// The document form of one weekday: its position in the week, from Monday,
/// as a single digit.
pub open spec fn emit_weekday(w: crate::date::Weekday) -> Seq<char> {
    seq![digit_char(w.spec_num() as int)]
}

/// Appends the document form of one weekday.
fn emit_weekday_into(out: &mut Vec<char>, w: crate::date::Weekday)
    ensures
        final(out)@ == old(out)@ + emit_weekday(w),
{
    let n = w.num_from_monday();
    out.push(digit_to_char(n));
    proof {
        assert_seqs_equal!(out@, old(out)@ + emit_weekday(w));
    }
}

/// Reads the document form of one weekday at `pos`.
fn parse_weekday(s: &[char], pos: usize) -> (r: Result<
    (crate::date::Weekday, usize),
    crate::Error,
>)
    ensures
        forall|w: crate::date::Weekday|
            #![trigger emit_weekday(w)]
            pos + 1 <= s@.len() && s@.subrange(pos as int, pos as int + 1) == emit_weekday(w)
                ==> r == Ok::<(crate::date::Weekday, usize), crate::Error>(
                (w, (pos + 1) as usize),
            ),
        r matches Ok(p) ==> {
            &&& pos + 1 <= s@.len()
            &&& s@.subrange(pos as int, pos as int + 1) == emit_weekday(p.0)
            &&& p.1 == pos + 1
        },
        r matches Ok(p) ==> p.1 == pos + 1 <= s@.len(),
{
    if pos >= s.len() {
        return Err(crate::Error::SerdeErr);
    }
    let c = s[pos];
    proof {
        assert forall|w: crate::date::Weekday|
            pos + 1 <= s@.len() && s@.subrange(pos as int, pos as int + 1) == emit_weekday(w)
                implies c == digit_char(w.spec_num() as int) by {
            assert(s@.subrange(pos as int, pos as int + 1)[0] == s@[pos as int]);
        }
    }
    match char_to_digit(c) {
        Some(d) => {
            if d < 7 {
                let w = crate::date::Weekday::from_num(d);
                proof {
                    assert forall|w2: crate::date::Weekday|
                        pos + 1 <= s@.len() && s@.subrange(pos as int, pos as int + 1)
                            == emit_weekday(w2) implies w2 == w by {
                        assert(digit_val(digit_char(w2.spec_num() as int))
                            == w2.spec_num() as int);
                    }
                    assert(digit_char(w.spec_num() as int) == c);
                    assert(s@.subrange(pos as int, pos as int + 1) =~= emit_weekday(w));
                }
                Ok((w, pos + 1))
            } else {
                Err(crate::Error::SerdeErr)
            }
        },
        None => Err(crate::Error::SerdeErr),
    }
}

/// The document form of a list of pieces, comma-separated.
pub open spec fn emit_list<T>(xs: Seq<T>, f: spec_fn(T) -> Seq<char>) -> Seq<char>
    decreases xs.len(),
{
    if xs.len() == 0 {
        Seq::empty()
    } else if xs.len() == 1 {
        f(xs[0])
    } else {
        emit_list(xs.drop_last(), f) + seq![','] + f(xs.last())
    }
}

/// The document form of one dated item.
pub open spec fn emit_todo(im: crate::sync::ItemModel<crate::item::TodoValue>) -> Seq<char> {
    ("{\"body\":")@ + (emit_string(im.val.body) + ((",\"date\":")@ + (emit_nat(im.val.date.days)
        + ((",\"id\":")@ + (emit_nat(im.pid) + ((",\"done\":")@ + (emit_opt_date(im.val.done)
        + ((",\"sync_id\":")@ + (emit_nat(im.sid) + ((",\"state\":")@ + (emit_state(im.st)
        + ("}")@)))))))))))
}

/// The seven completion-map entries, Monday first.
pub open spec fn dm_entries(dm: crate::item::DoneMap) -> Seq<Option<crate::date::Date>> {
    seq![dm.mon, dm.tue, dm.wed, dm.thu, dm.fri, dm.sat, dm.sun]
}

/// The document form of a task's per-weekday completion map: seven entries,
/// Monday first, in brackets.
pub open spec fn emit_done_map(dm: crate::item::DoneMap) -> Seq<char> {
    seq!['['] + (emit_list(
        dm_entries(dm),
        |o: Option<crate::date::Date>| emit_opt_date(o),
    ) + seq![']'])
}

/// The document form of one recurring item.
pub open spec fn emit_task(im: crate::sync::ItemModel<crate::item::TaskValue>) -> Seq<char> {
    ("{\"body\":")@ + (emit_string(im.val.body) + ((",\"weekdays\":[")@ + (emit_list(
        im.val.weekdays,
        |w: crate::date::Weekday| emit_weekday(w),
    ) + (("],\"done_map\":")@ + (emit_done_map(im.val.done_map) + ((",\"id\":")@ + (emit_nat(
        im.pid,
    ) + ((",\"sync_id\":")@ + (emit_nat(im.sid) + ((",\"state\":")@ + (emit_state(im.st)
        + ("}")@)))))))))))
}

/// The document form of one item-kind collection: its items in order, and its
/// own role flag.
pub open spec fn emit_todo_coll(
    items: Seq<crate::sync::ItemModel<crate::item::TodoValue>>,
    server: bool,
) -> Seq<char> {
    ("{\"items\":[")@ + (emit_list(
        items,
        |im: crate::sync::ItemModel<crate::item::TodoValue>| emit_todo(im),
    ) + (("],\"server\":")@ + (emit_bool(server) + ("}")@)))
}

/// The document form of the recurring-item collection.
pub open spec fn emit_task_coll(
    items: Seq<crate::sync::ItemModel<crate::item::TaskValue>>,
    server: bool,
) -> Seq<char> {
    ("{\"items\":[")@ + (emit_list(
        items,
        |im: crate::sync::ItemModel<crate::item::TaskValue>| emit_task(im),
    ) + (("],\"server\":")@ + (emit_bool(server) + ("}")@)))
}

/// The document image of a replica: everything its serialized form carries.
pub struct TdDoc {
    /// The models of the dated items, tombstones included.
    pub todos: Seq<crate::sync::ItemModel<crate::item::TodoValue>>,
    /// The dated-item collection's role flag.
    pub todos_server: bool,
    /// The models of the recurring items, tombstones included.
    pub tasks: Seq<crate::sync::ItemModel<crate::item::TaskValue>>,
    /// The recurring-item collection's role flag.
    pub tasks_server: bool,
    /// The replica's role flag.
    pub server: bool,
}

/// The document image of a replica value.
pub open spec fn doc_of(l: crate::tdlist::TdList) -> TdDoc {
    TdDoc {
        todos: l.todos.m(),
        todos_server: l.todos.server,
        tasks: l.tasks.m(),
        tasks_server: l.tasks.server,
        server: l.server,
    }
}

/// The serialized document of a replica.
pub open spec fn emit_doc(d: TdDoc) -> Seq<char> {
    ("{\"todos\":")@ + (emit_todo_coll(d.todos, d.todos_server) + ((",\"tasks\":")@ + (
    emit_task_coll(d.tasks, d.tasks_server) + ((",\"server\":")@ + (emit_bool(d.server)
        + ("}")@)))))
}

/// Appends the document form of one dated item.
#[verifier::rlimit(100)]
#[verifier::spinoff_prover]
fn emit_todo_into(out: &mut Vec<char>, t: &crate::item::Todo)
    ensures
        final(out)@ == old(out)@ + emit_todo(crate::sync::item_model(*t)),
{
    push_lit(out, "{\"body\":");
    emit_string_into(out, t.body.as_str());
    push_lit(out, ",\"date\":");
    emit_nat_into(out, t.date.days);
    push_lit(out, ",\"id\":");
    emit_nat_into(out, t.id);
    push_lit(out, ",\"done\":");
    emit_opt_date_into(out, &t.done);
    push_lit(out, ",\"sync_id\":");
    emit_nat_into(out, t.sync_id);
    push_lit(out, ",\"state\":");
    emit_state_into(out, t.state);
    push_lit(out, "}");
    proof {
        assert_seqs_equal!(out@, old(out)@ + emit_todo(crate::sync::item_model(*t)));
    }
}

/// Appends the document form of a task's completion map.
fn emit_done_map_into(out: &mut Vec<char>, dm: &crate::item::DoneMap)
    ensures
        final(out)@ == old(out)@ + emit_done_map(*dm),
{
    let ghost f = |o: Option<crate::date::Date>| emit_opt_date(o);
    let mut entries: Vec<Option<crate::date::Date>> = Vec::new();
    entries.push(dm.mon);
    entries.push(dm.tue);
    entries.push(dm.wed);
    entries.push(dm.thu);
    entries.push(dm.fri);
    entries.push(dm.sat);
    entries.push(dm.sun);
    proof {
        assert(entries@ =~= dm_entries(*dm));
    }
    out.push('[');
    let ghost base = out@;
    let mut i: usize = 0;
    while i < entries.len()
        invariant
            i <= entries@.len(),
            f == (|o: Option<crate::date::Date>| emit_opt_date(o)),
            entries@ == dm_entries(*dm),
            out@ == base + emit_list(entries@.take(i as int), f),
        decreases entries@.len() - i,
    {
        proof {
            assert(entries@.take(i + 1).drop_last() =~= entries@.take(i as int));
            assert(entries@.take(i + 1).last() == entries@[i as int]);
        }
        if i > 0 {
            out.push(',');
        }
        emit_opt_date_into(out, &entries[i]);
        proof {
            if i == 0 {
                assert(entries@.take(1).len() == 1);
                assert_seqs_equal!(out@, base + emit_list(entries@.take(1), f));
            } else {
                assert_seqs_equal!(out@, base + emit_list(entries@.take(i + 1), f));
            }
        }
        i += 1;
    }
    out.push(']');
    proof {
        assert(entries@.take(entries@.len() as int) == entries@);
        assert_seqs_equal!(out@, old(out)@ + emit_done_map(*dm));
    }
}

/// Appends the document form of a weekday list, comma-separated.
fn emit_weekdays_into(out: &mut Vec<char>, ws: &Vec<crate::date::Weekday>)
    ensures
        final(out)@ == old(out)@ + emit_list(
            ws@,
            |w: crate::date::Weekday| emit_weekday(w),
        ),
{
    let ghost f = |w: crate::date::Weekday| emit_weekday(w);
    let mut i: usize = 0;
    while i < ws.len()
        invariant
            i <= ws@.len(),
            f == (|w: crate::date::Weekday| emit_weekday(w)),
            out@ == old(out)@ + emit_list(ws@.take(i as int), f),
        decreases ws@.len() - i,
    {
        proof {
            assert(ws@.take(i + 1).drop_last() =~= ws@.take(i as int));
            assert(ws@.take(i + 1).last() == ws@[i as int]);
        }
        if i > 0 {
            out.push(',');
        }
        emit_weekday_into(out, ws[i]);
        proof {
            if i == 0 {
                assert(ws@.take(1).len() == 1);
                assert_seqs_equal!(out@, old(out)@ + emit_list(ws@.take(1), f));
            } else {
                assert_seqs_equal!(out@, old(out)@ + emit_list(ws@.take(i + 1), f));
            }
        }
        i += 1;
    }
    proof {
        assert(ws@.take(ws@.len() as int) == ws@);
    }
}

/// Appends the document form of one recurring item.
fn emit_task_into(out: &mut Vec<char>, t: &crate::item::Task)
    ensures
        final(out)@ == old(out)@ + emit_task(crate::sync::item_model(*t)),
{
    push_lit(out, "{\"body\":");
    emit_string_into(out, t.body.as_str());
    push_lit(out, ",\"weekdays\":[");
    emit_weekdays_into(out, &t.weekdays);
    push_lit(out, "],\"done_map\":");
    emit_done_map_into(out, &t.done_map);
    push_lit(out, ",\"id\":");
    emit_nat_into(out, t.id);
    push_lit(out, ",\"sync_id\":");
    emit_nat_into(out, t.sync_id);
    push_lit(out, ",\"state\":");
    emit_state_into(out, t.state);
    push_lit(out, "}");
    proof {
        assert_seqs_equal!(out@, old(out)@ + emit_task(crate::sync::item_model(*t)));
    }
}

/// Appends the document form of the dated-item collection.
fn emit_todo_coll_into(out: &mut Vec<char>, coll: &crate::sync::SyncList<crate::item::Todo>)
    ensures
        final(out)@ == old(out)@ + emit_todo_coll(coll.m(), coll.server),
{
    let ghost f = |im: crate::sync::ItemModel<crate::item::TodoValue>| emit_todo(im);
    push_lit(out, "{\"items\":[");
    let ghost base = out@;
    let mut i: usize = 0;
    while i < coll.items.len()
        invariant
            i <= coll.items@.len(),
            f == (|im: crate::sync::ItemModel<crate::item::TodoValue>| emit_todo(im)),
            out@ == base + emit_list(coll.m().take(i as int), f),
            coll.m().len() == coll.items@.len(),
        decreases coll.items@.len() - i,
    {
        proof {
            assert(coll.m().take(i + 1).drop_last() =~= coll.m().take(i as int));
            assert(coll.m().take(i + 1).last() == coll.m()[i as int]);
            assert(coll.m()[i as int] == crate::sync::item_model(coll.items@[i as int]));
        }
        if i > 0 {
            out.push(',');
        }
        emit_todo_into(out, &coll.items[i]);
        proof {
            if i == 0 {
                assert(coll.m().take(1).len() == 1);
                assert_seqs_equal!(out@, base + emit_list(coll.m().take(1), f));
            } else {
                assert_seqs_equal!(out@, base + emit_list(coll.m().take(i + 1), f));
            }
        }
        i += 1;
    }
    push_lit(out, "],\"server\":");
    emit_bool_into(out, coll.server);
    push_lit(out, "}");
    proof {
        assert(coll.m().take(coll.m().len() as int) == coll.m());
        assert_seqs_equal!(out@, old(out)@ + emit_todo_coll(coll.m(), coll.server));
    }
}

/// Appends the document form of the recurring-item collection.
fn emit_task_coll_into(out: &mut Vec<char>, coll: &crate::sync::SyncList<crate::item::Task>)
    ensures
        final(out)@ == old(out)@ + emit_task_coll(coll.m(), coll.server),
{
    let ghost f = |im: crate::sync::ItemModel<crate::item::TaskValue>| emit_task(im);
    push_lit(out, "{\"items\":[");
    let ghost base = out@;
    let mut i: usize = 0;
    while i < coll.items.len()
        invariant
            i <= coll.items@.len(),
            f == (|im: crate::sync::ItemModel<crate::item::TaskValue>| emit_task(im)),
            out@ == base + emit_list(coll.m().take(i as int), f),
            coll.m().len() == coll.items@.len(),
        decreases coll.items@.len() - i,
    {
        proof {
            assert(coll.m().take(i + 1).drop_last() =~= coll.m().take(i as int));
            assert(coll.m().take(i + 1).last() == coll.m()[i as int]);
            assert(coll.m()[i as int] == crate::sync::item_model(coll.items@[i as int]));
        }
        if i > 0 {
            out.push(',');
        }
        emit_task_into(out, &coll.items[i]);
        proof {
            if i == 0 {
                assert(coll.m().take(1).len() == 1);
                assert_seqs_equal!(out@, base + emit_list(coll.m().take(1), f));
            } else {
                assert_seqs_equal!(out@, base + emit_list(coll.m().take(i + 1), f));
            }
        }
        i += 1;
    }
    push_lit(out, "],\"server\":");
    emit_bool_into(out, coll.server);
    push_lit(out, "}");
    proof {
        assert(coll.m().take(coll.m().len() as int) == coll.m());
        assert_seqs_equal!(out@, old(out)@ + emit_task_coll(coll.m(), coll.server));
    }
}

impl crate::tdlist::TdList {
    /// Serializes the replica to its canonical JSON document.
    #[verifier::rlimit(60)]
    pub fn to_json(&self) -> (r: Result<String, crate::Error>)
        ensures
            r is Ok,
            r matches Ok(s) ==> s@ == emit_doc(doc_of(*self)),
    {
        let mut out: Vec<char> = Vec::new();
        push_lit(&mut out, "{\"todos\":");
        emit_todo_coll_into(&mut out, &self.todos);
        push_lit(&mut out, ",\"tasks\":");
        emit_task_coll_into(&mut out, &self.tasks);
        push_lit(&mut out, ",\"server\":");
        emit_bool_into(&mut out, self.server);
        push_lit(&mut out, "}");
        proof {
            assert_seqs_equal!(out@, emit_doc(doc_of(*self)));
        }
        Ok(chars_string(&out))
    }
}

/// Splitting a window over a concatenation yields a window per part.
proof fn lemma_chop(s: Seq<char>, pos: int, a: Seq<char>, b: Seq<char>)
    requires
        0 <= pos,
        pos + a.len() + b.len() <= s.len(),
        s.subrange(pos, pos + a.len() + b.len()) == a + b,
    ensures
        s.subrange(pos, pos + a.len() as int) == a,
        s.subrange(pos + a.len(), pos + a.len() + b.len()) == b,
{
    assert forall|j: int| 0 <= j < a.len() implies s[pos + j] == a[j] by {
        assert(s.subrange(pos, pos + a.len() + b.len())[j] == s[pos + j]);
    }
    assert forall|j: int| 0 <= j < b.len() implies s[pos + a.len() + j] == b[j] by {
        assert(s.subrange(pos, pos + a.len() + b.len())[a.len() + j] == s[pos + a.len() + j]);
    }
    assert(s.subrange(pos, pos + a.len() as int) =~= a);
    assert(s.subrange(pos + a.len(), pos + a.len() + b.len()) =~= b);
}

/// Concatenating piece lists concatenates their document forms, with a
/// separator where both sides are inhabited.
proof fn lemma_emit_list_concat<T>(a: Seq<T>, b: Seq<T>, f: spec_fn(T) -> Seq<char>)
    ensures
        emit_list(a + b, f) == if a.len() == 0 {
            emit_list(b, f)
        } else if b.len() == 0 {
            emit_list(a, f)
        } else {
            emit_list(a, f) + seq![','] + emit_list(b, f)
        },
    decreases b.len(),
{
    if b.len() == 0 {
        assert(a + b =~= a);
    } else if a.len() == 0 {
        assert(a + b =~= b);
    } else if b.len() == 1 {
        assert((a + b).drop_last() =~= a);
        assert((a + b).last() == b[0]);
        assert(emit_list(b, f) == f(b[0]));
        assert(a.len() + b.len() >= 2);
    } else {
        assert((a + b).drop_last() =~= a + b.drop_last());
        assert((a + b).last() == b.last());
        lemma_emit_list_concat(a, b.drop_last(), f);
        assert(emit_list(a + b, f) == emit_list(a + b.drop_last(), f) + seq![','] + f(b.last()));
        assert(emit_list(a, f) + seq![','] + (emit_list(b.drop_last(), f) + seq![','] + f(
            b.last(),
        )) =~= emit_list(a, f) + seq![','] + emit_list(b.drop_last(), f) + seq![','] + f(
            b.last(),
        ));
    }
}

/// True when the document form of the piece list `ms` stands at `pos` in `s`,
/// closed off by the `]` that follows it.
pub open spec fn list_at<T>(s: Seq<char>, pos: int, ms: Seq<T>, f: spec_fn(T) -> Seq<char>) -> bool {
    &&& 0 <= pos
    &&& pos + emit_list(ms, f).len() + 1 <= s.len()
    &&& s.subrange(pos, pos + emit_list(ms, f).len() as int) == emit_list(ms, f)
    &&& s[pos + emit_list(ms, f).len()] == ']'
}

/// Under a canonical list at `pos`, what the scanner sees after `k` pieces:
/// the closing bracket when all are read, else a separator (past the first
/// piece) and the next piece's form.
proof fn lemma_list_next<T>(
    s: Seq<char>,
    pos: int,
    ms: Seq<T>,
    f: spec_fn(T) -> Seq<char>,
    k: int,
)
    requires
        list_at(s, pos, ms, f),
        0 <= k <= ms.len(),
    ensures
        emit_list(ms.take(k), f).len() <= emit_list(ms, f).len(),
        k == ms.len() ==> s[pos + emit_list(ms.take(k), f).len()] == ']',
        k < ms.len() ==> ({
            let cur = pos + emit_list(ms.take(k), f).len();
            let sep: int = if k > 0 {
                1
            } else {
                0
            };
            &&& (k > 0 ==> s[cur] == ',')
            &&& cur + sep + f(ms[k]).len() + 1 <= s.len()
            &&& s.subrange(cur + sep, cur + sep + f(ms[k]).len() as int) == f(ms[k])
            &&& emit_list(ms.take(k + 1), f).len() == emit_list(ms.take(k), f).len() + sep + f(
                ms[k],
            ).len()
        }),
{
    let w = emit_list(ms, f);
    assert(ms.take(k) + ms.skip(k) =~= ms);
    lemma_emit_list_concat(ms.take(k), ms.skip(k), f);
    if k == ms.len() {
        assert(ms.skip(k) =~= Seq::<T>::empty());
        assert(emit_list(ms.take(k), f).len() == w.len());
    } else {
        assert(ms.take(k + 1) =~= ms.take(k) + seq![ms[k]]);
        lemma_emit_list_concat(ms.take(k), seq![ms[k]], f);
        assert(emit_list(seq![ms[k]], f) == f(ms[k]));
        assert(ms.skip(k) =~= seq![ms[k]] + ms.skip(k + 1));
        lemma_emit_list_concat(seq![ms[k]], ms.skip(k + 1), f);
        let cur = pos + emit_list(ms.take(k), f).len();
        let sep: int = if k > 0 {
            1
        } else {
            0
        };
        if k > 0 {
            if ms.skip(k + 1).len() == 0 {
                assert(w == emit_list(ms.take(k), f) + seq![','] + f(ms[k]));
                assert(w =~= emit_list(ms.take(k), f) + (seq![','] + f(ms[k])));
                lemma_chop(s, pos, emit_list(ms.take(k), f), seq![','] + f(ms[k]));
                lemma_chop(s, cur, seq![','], f(ms[k]));
                assert(s.subrange(cur, cur + 1)[0] == s[cur]);
            } else {
                assert(w == emit_list(ms.take(k), f) + seq![','] + (f(ms[k]) + seq![',']
                    + emit_list(ms.skip(k + 1), f)));
                assert(w =~= emit_list(ms.take(k), f) + (seq![','] + (f(ms[k]) + (seq![',']
                    + emit_list(ms.skip(k + 1), f)))));
                lemma_chop(
                    s,
                    pos,
                    emit_list(ms.take(k), f),
                    seq![','] + (f(ms[k]) + (seq![','] + emit_list(ms.skip(k + 1), f))),
                );
                lemma_chop(
                    s,
                    cur,
                    seq![','],
                    f(ms[k]) + (seq![','] + emit_list(ms.skip(k + 1), f)),
                );
                lemma_chop(
                    s,
                    cur + 1,
                    f(ms[k]),
                    seq![','] + emit_list(ms.skip(k + 1), f),
                );
                assert(s.subrange(cur, cur + 1)[0] == s[cur]);
            }
        } else {
            assert(ms.take(0) =~= Seq::<T>::empty());
            if ms.skip(1).len() == 0 {
                assert(ms =~= seq![ms[0]]);
                assert(w == f(ms[0]));
            } else {
                assert(w == f(ms[k]) + seq![','] + emit_list(ms.skip(k + 1), f));
                assert(w =~= f(ms[k]) + (seq![','] + emit_list(ms.skip(k + 1), f)));
                lemma_chop(s, pos, f(ms[k]), seq![','] + emit_list(ms.skip(k + 1), f));
            }
        }
    }
}

/// True when the document form of the dated item `im` stands at `pos` in `s`.
pub open spec fn todo_at(
    s: Seq<char>,
    pos: int,
    im: crate::sync::ItemModel<crate::item::TodoValue>,
) -> bool {
    &&& 0 <= pos
    &&& pos + emit_todo(im).len() <= s.len()
    &&& s.subrange(pos, pos + emit_todo(im).len() as int) == emit_todo(im)
}

/// Under a canonical dated item at `pos`, each of its pieces stands at its
/// own offset.
proof fn lemma_todo_shape(
    s: Seq<char>,
    pos: int,
    im: crate::sync::ItemModel<crate::item::TodoValue>,
)
    requires
        todo_at(s, pos, im),
    ensures
        ({
            let p1 = pos + ("{\"body\":")@.len();
            let p2 = p1 + emit_string(im.val.body).len();
            let p3 = p2 + (",\"date\":")@.len();
            let p4 = p3 + emit_nat(im.val.date.days).len();
            let p5 = p4 + (",\"id\":")@.len();
            let p6 = p5 + emit_nat(im.pid).len();
            let p7 = p6 + (",\"done\":")@.len();
            let p8 = p7 + emit_opt_date(im.val.done).len();
            let p9 = p8 + (",\"sync_id\":")@.len();
            let p10 = p9 + emit_nat(im.sid).len();
            let p11 = p10 + (",\"state\":")@.len();
            let p12 = p11 + emit_state(im.st).len();
            let p13 = p12 + ("}")@.len();
            &&& s.subrange(pos, p1) == ("{\"body\":")@
            &&& s.subrange(p1, p2) == emit_string(im.val.body)
            &&& s.subrange(p2, p3) == (",\"date\":")@
            &&& s.subrange(p3, p4) == emit_nat(im.val.date.days)
            &&& s.subrange(p4, p5) == (",\"id\":")@
            &&& s.subrange(p5, p6) == emit_nat(im.pid)
            &&& s.subrange(p6, p7) == (",\"done\":")@
            &&& s.subrange(p7, p8) == emit_opt_date(im.val.done)
            &&& s.subrange(p8, p9) == (",\"sync_id\":")@
            &&& s.subrange(p9, p10) == emit_nat(im.sid)
            &&& s.subrange(p10, p11) == (",\"state\":")@
            &&& s.subrange(p11, p12) == emit_state(im.st)
            &&& s.subrange(p12, p13) == ("}")@
            &&& p13 == pos + emit_todo(im).len()
            &&& string_at(s, p1, im.val.body)
        }),
{
    let l1 = ("{\"body\":")@;
    let e1 = emit_string(im.val.body);
    let l2 = (",\"date\":")@;
    let e2 = emit_nat(im.val.date.days);
    let l3 = (",\"id\":")@;
    let e3 = emit_nat(im.pid);
    let l4 = (",\"done\":")@;
    let e4 = emit_opt_date(im.val.done);
    let l5 = (",\"sync_id\":")@;
    let e5 = emit_nat(im.sid);
    let l6 = (",\"state\":")@;
    let e6 = emit_state(im.st);
    let l7 = ("}")@;
    lemma_chop(s, pos, l1, e1 + (l2 + (e2 + (l3 + (e3 + (l4 + (e4 + (l5 + (e5 + (l6 + (e6
        + l7)))))))))));
    let p1 = pos + l1.len();
    lemma_chop(s, p1, e1, l2 + (e2 + (l3 + (e3 + (l4 + (e4 + (l5 + (e5 + (l6 + (e6 + l7))))))))));
    let p2 = p1 + e1.len();
    lemma_chop(s, p2, l2, e2 + (l3 + (e3 + (l4 + (e4 + (l5 + (e5 + (l6 + (e6 + l7)))))))));
    let p3 = p2 + l2.len();
    lemma_chop(s, p3, e2, l3 + (e3 + (l4 + (e4 + (l5 + (e5 + (l6 + (e6 + l7))))))));
    let p4 = p3 + e2.len();
    lemma_chop(s, p4, l3, e3 + (l4 + (e4 + (l5 + (e5 + (l6 + (e6 + l7)))))));
    let p5 = p4 + l3.len();
    lemma_chop(s, p5, e3, l4 + (e4 + (l5 + (e5 + (l6 + (e6 + l7))))));
    let p6 = p5 + e3.len();
    lemma_chop(s, p6, l4, e4 + (l5 + (e5 + (l6 + (e6 + l7)))));
    let p7 = p6 + l4.len();
    lemma_chop(s, p7, e4, l5 + (e5 + (l6 + (e6 + l7))));
    let p8 = p7 + e4.len();
    lemma_chop(s, p8, l5, e5 + (l6 + (e6 + l7)));
    let p9 = p8 + l5.len();
    lemma_chop(s, p9, e5, l6 + (e6 + l7));
    let p10 = p9 + e5.len();
    lemma_chop(s, p10, l6, e6 + l7);
    let p11 = p10 + l6.len();
    lemma_chop(s, p11, e6, l7);
}

/// Thirteen adjacent windows holding a dated item's pieces join into the
/// item's whole document form.
proof fn lemma_join_todo(
    s: Seq<char>,
    pos: int,
    body: Seq<char>,
    dd: u64,
    id: u64,
    done: Option<crate::date::Date>,
    sync_id: u64,
    st: crate::sync::ItemState,
    e1: int,
    e2: int,
    e3: int,
    e4: int,
    e5: int,
    e6: int,
    e7: int,
    e8: int,
    e9: int,
    e10: int,
    e11: int,
    e12: int,
    e13: int,
)
    requires
        0 <= pos,
        e13 <= s.len(),
        e1 == pos + ("{\"body\":")@.len(),
        s.subrange(pos, e1) == ("{\"body\":")@,
        e2 == e1 + emit_string(body).len(),
        s.subrange(e1, e2) == emit_string(body),
        e3 == e2 + (",\"date\":")@.len(),
        s.subrange(e2, e3) == (",\"date\":")@,
        e4 == e3 + emit_nat(dd).len(),
        s.subrange(e3, e4) == emit_nat(dd),
        e5 == e4 + (",\"id\":")@.len(),
        s.subrange(e4, e5) == (",\"id\":")@,
        e6 == e5 + emit_nat(id).len(),
        s.subrange(e5, e6) == emit_nat(id),
        e7 == e6 + (",\"done\":")@.len(),
        s.subrange(e6, e7) == (",\"done\":")@,
        e8 == e7 + emit_opt_date(done).len(),
        s.subrange(e7, e8) == emit_opt_date(done),
        e9 == e8 + (",\"sync_id\":")@.len(),
        s.subrange(e8, e9) == (",\"sync_id\":")@,
        e10 == e9 + emit_nat(sync_id).len(),
        s.subrange(e9, e10) == emit_nat(sync_id),
        e11 == e10 + (",\"state\":")@.len(),
        s.subrange(e10, e11) == (",\"state\":")@,
        e12 == e11 + emit_state(st).len(),
        s.subrange(e11, e12) == emit_state(st),
        e13 == e12 + ("}")@.len(),
        s.subrange(e12, e13) == ("}")@,
    ensures
        ({
            let im = crate::sync::ItemModel {
                sid: sync_id,
                pid: id,
                st,
                val: crate::item::TodoValue {
                    body,
                    date: crate::date::Date { days: dd },
                    done,
                },
            };
            &&& todo_at(s, pos, im)
            &&& e13 == pos + emit_todo(im).len()
        }),
{
    let g13 = ("}")@;
    let g12 = emit_state(st) + g13;
    lemma_join(s, e11, emit_state(st), g13);
    let g11 = (",\"state\":")@ + g12;
    lemma_join(s, e10, (",\"state\":")@, g12);
    let g10 = emit_nat(sync_id) + g11;
    lemma_join(s, e9, emit_nat(sync_id), g11);
    let g9 = (",\"sync_id\":")@ + g10;
    lemma_join(s, e8, (",\"sync_id\":")@, g10);
    let g8 = emit_opt_date(done) + g9;
    lemma_join(s, e7, emit_opt_date(done), g9);
    let g7 = (",\"done\":")@ + g8;
    lemma_join(s, e6, (",\"done\":")@, g8);
    let g6 = emit_nat(id) + g7;
    lemma_join(s, e5, emit_nat(id), g7);
    let g5 = (",\"id\":")@ + g6;
    lemma_join(s, e4, (",\"id\":")@, g6);
    let g4 = emit_nat(dd) + g5;
    lemma_join(s, e3, emit_nat(dd), g5);
    let g3 = (",\"date\":")@ + g4;
    lemma_join(s, e2, (",\"date\":")@, g4);
    let g2 = emit_string(body) + g3;
    lemma_join(s, e1, emit_string(body), g3);
    let g1 = ("{\"body\":")@ + g2;
    lemma_join(s, pos, ("{\"body\":")@, g2);
}

/// Reads the document form of one dated item at `pos`.
#[verifier::rlimit(100)]
fn parse_todo(s: &[char], pos: usize) -> (r: Result<(crate::item::Todo, usize), crate::Error>)
    ensures
        forall|im: crate::sync::ItemModel<crate::item::TodoValue>|
            #![trigger todo_at(s@, pos as int, im)]
            todo_at(s@, pos as int, im) ==> (r matches Ok(p) && crate::sync::item_model(p.0)
                == im && p.1 == pos + emit_todo(im).len()),
        r matches Ok(p) ==> todo_at(s@, pos as int, crate::sync::item_model(p.0)) && p.1 == pos
            + emit_todo(crate::sync::item_model(p.0)).len(),
        r matches Ok(p) ==> pos < p.1 <= s@.len(),
{
    let ghost slen = s@.len();
    let n = s.len();
    proof {
        assert(slen <= usize::MAX);
    }
    let e1 = match expect_lit(s, pos, "{\"body\":") {
        Ok(e) => e,
        Err(_) => {
            proof {
                assert forall|im: crate::sync::ItemModel<crate::item::TodoValue>| !todo_at(
                    s@,
                    pos as int,
                    im,
                ) by {
                    if todo_at(s@, pos as int, im) {
                        lemma_todo_shape(s@, pos as int, im);
                    }
                }
            }
            return Err(crate::Error::SerdeErr);
        },
    };
    let (body, e2) = match parse_string(s, e1) {
        Ok(p) => p,
        Err(_) => {
            proof {
                assert forall|im: crate::sync::ItemModel<crate::item::TodoValue>| !todo_at(
                    s@,
                    pos as int,
                    im,
                ) by {
                    if todo_at(s@, pos as int, im) {
                        lemma_todo_shape(s@, pos as int, im);
                    }
                }
            }
            return Err(crate::Error::SerdeErr);
        },
    };
    let e3 = match expect_lit(s, e2, ",\"date\":") {
        Ok(e) => e,
        Err(_) => {
            proof {
                assert forall|im: crate::sync::ItemModel<crate::item::TodoValue>| !todo_at(
                    s@,
                    pos as int,
                    im,
                ) by {
                    if todo_at(s@, pos as int, im) {
                        lemma_todo_shape(s@, pos as int, im);
                    }
                }
            }
            return Err(crate::Error::SerdeErr);
        },
    };
    let (date_days, e4) = match parse_nat(s, e3) {
        Ok(p) => p,
        Err(_) => {
            proof {
                assert forall|im: crate::sync::ItemModel<crate::item::TodoValue>| !todo_at(
                    s@,
                    pos as int,
                    im,
                ) by {
                    if todo_at(s@, pos as int, im) {
                        lemma_todo_shape(s@, pos as int, im);
                    }
                }
            }
            return Err(crate::Error::SerdeErr);
        },
    };
    let e5 = match expect_lit(s, e4, ",\"id\":") {
        Ok(e) => e,
        Err(_) => {
            proof {
                assert forall|im: crate::sync::ItemModel<crate::item::TodoValue>| !todo_at(
                    s@,
                    pos as int,
                    im,
                ) by {
                    if todo_at(s@, pos as int, im) {
                        lemma_todo_shape(s@, pos as int, im);
                    }
                }
            }
            return Err(crate::Error::SerdeErr);
        },
    };
    let (id, e6) = match parse_nat(s, e5) {
        Ok(p) => p,
        Err(_) => {
            proof {
                assert forall|im: crate::sync::ItemModel<crate::item::TodoValue>| !todo_at(
                    s@,
                    pos as int,
                    im,
                ) by {
                    if todo_at(s@, pos as int, im) {
                        lemma_todo_shape(s@, pos as int, im);
                    }
                }
            }
            return Err(crate::Error::SerdeErr);
        },
    };
    let e7 = match expect_lit(s, e6, ",\"done\":") {
        Ok(e) => e,
        Err(_) => {
            proof {
                assert forall|im: crate::sync::ItemModel<crate::item::TodoValue>| !todo_at(
                    s@,
                    pos as int,
                    im,
                ) by {
                    if todo_at(s@, pos as int, im) {
                        lemma_todo_shape(s@, pos as int, im);
                    }
                }
            }
            return Err(crate::Error::SerdeErr);
        },
    };
    let (done, e8) = match parse_opt_date(s, e7) {
        Ok(p) => p,
        Err(_) => {
            proof {
                assert forall|im: crate::sync::ItemModel<crate::item::TodoValue>| !todo_at(
                    s@,
                    pos as int,
                    im,
                ) by {
                    if todo_at(s@, pos as int, im) {
                        lemma_todo_shape(s@, pos as int, im);
                    }
                }
            }
            return Err(crate::Error::SerdeErr);
        },
    };
    let e9 = match expect_lit(s, e8, ",\"sync_id\":") {
        Ok(e) => e,
        Err(_) => {
            proof {
                assert forall|im: crate::sync::ItemModel<crate::item::TodoValue>| !todo_at(
                    s@,
                    pos as int,
                    im,
                ) by {
                    if todo_at(s@, pos as int, im) {
                        lemma_todo_shape(s@, pos as int, im);
                    }
                }
            }
            return Err(crate::Error::SerdeErr);
        },
    };
    let (sync_id, e10) = match parse_nat(s, e9) {
        Ok(p) => p,
        Err(_) => {
            proof {
                assert forall|im: crate::sync::ItemModel<crate::item::TodoValue>| !todo_at(
                    s@,
                    pos as int,
                    im,
                ) by {
                    if todo_at(s@, pos as int, im) {
                        lemma_todo_shape(s@, pos as int, im);
                    }
                }
            }
            return Err(crate::Error::SerdeErr);
        },
    };
    let e11 = match expect_lit(s, e10, ",\"state\":") {
        Ok(e) => e,
        Err(_) => {
            proof {
                assert forall|im: crate::sync::ItemModel<crate::item::TodoValue>| !todo_at(
                    s@,
                    pos as int,
                    im,
                ) by {
                    if todo_at(s@, pos as int, im) {
                        lemma_todo_shape(s@, pos as int, im);
                    }
                }
            }
            return Err(crate::Error::SerdeErr);
        },
    };
    let (state, e12) = match parse_state(s, e11) {
        Ok(p) => p,
        Err(_) => {
            proof {
                assert forall|im: crate::sync::ItemModel<crate::item::TodoValue>| !todo_at(
                    s@,
                    pos as int,
                    im,
                ) by {
                    if todo_at(s@, pos as int, im) {
                        lemma_todo_shape(s@, pos as int, im);
                    }
                }
            }
            return Err(crate::Error::SerdeErr);
        },
    };
    let e13 = match expect_lit(s, e12, "}") {
        Ok(e) => e,
        Err(_) => {
            proof {
                assert forall|im: crate::sync::ItemModel<crate::item::TodoValue>| !todo_at(
                    s@,
                    pos as int,
                    im,
                ) by {
                    if todo_at(s@, pos as int, im) {
                        lemma_todo_shape(s@, pos as int, im);
                    }
                }
            }
            return Err(crate::Error::SerdeErr);
        },
    };
    let t = crate::item::Todo {
        body: chars_string(&body),
        date: crate::date::Date { days: date_days },
        id,
        done,
        sync_id,
        state,
    };
    proof {
        assert forall|im: crate::sync::ItemModel<crate::item::TodoValue>|
            todo_at(s@, pos as int, im) implies crate::sync::item_model(t) == im && e13 == pos
            + emit_todo(im).len() by {
            lemma_todo_shape(s@, pos as int, im);
        }
        lemma_join_todo(
            s@,
            pos as int,
            body@,
            date_days,
            id,
            done,
            sync_id,
            state,
            e1 as int,
            e2 as int,
            e3 as int,
            e4 as int,
            e5 as int,
            e6 as int,
            e7 as int,
            e8 as int,
            e9 as int,
            e10 as int,
            e11 as int,
            e12 as int,
            e13 as int,
        );
        assert(crate::sync::item_model(t) == (crate::sync::ItemModel {
            sid: sync_id,
            pid: id,
            st: state,
            val: crate::item::TodoValue {
                body: body@,
                date: crate::date::Date { days: date_days },
                done,
            },
        }));
    }
    Ok((t, e13))
}


/// The body of a weekday list entry, as a function.
pub open spec fn wd_f() -> spec_fn(crate::date::Weekday) -> Seq<char> {
    |w: crate::date::Weekday| emit_weekday(w)
}

/// The body of a dated-item list entry, as a function.
pub open spec fn todo_f() -> spec_fn(crate::sync::ItemModel<crate::item::TodoValue>) -> Seq<
    char,
> {
    |im: crate::sync::ItemModel<crate::item::TodoValue>| emit_todo(im)
}

/// The body of a recurring-item list entry, as a function.
pub open spec fn task_f() -> spec_fn(crate::sync::ItemModel<crate::item::TaskValue>) -> Seq<
    char,
> {
    |im: crate::sync::ItemModel<crate::item::TaskValue>| emit_task(im)
}

/// Checks that the single character `c` stands at `pos`, returning the
/// position after it.
fn expect_char(s: &[char], pos: usize, c: char) -> (r: Result<usize, crate::Error>)
    ensures
        pos + 1 <= s@.len() && s@[pos as int] == c ==> r == Ok::<usize, crate::Error>(
            (pos + 1) as usize,
        ),
        r matches Ok(e) ==> e == pos + 1 && pos + 1 <= s@.len() && s@[pos as int] == c,
{
    if pos >= s.len() {
        return Err(crate::Error::SerdeErr);
    }
    if s[pos] == c {
        Ok(pos + 1)
    } else {
        Err(crate::Error::SerdeErr)
    }
}


/// True when the document form of the completion map `dm` stands at `pos`.
pub open spec fn done_map_at(s: Seq<char>, pos: int, dm: crate::item::DoneMap) -> bool {
    &&& 0 <= pos
    &&& pos + emit_done_map(dm).len() <= s.len()
    &&& s.subrange(pos, pos + emit_done_map(dm).len() as int) == emit_done_map(dm)
}

/// The body of a completion-map entry, as a function.
pub open spec fn od_f() -> spec_fn(Option<crate::date::Date>) -> Seq<char> {
    |o: Option<crate::date::Date>| emit_opt_date(o)
}

/// A completion-map entry's document form starts with `n` or `"` and has at
/// least four characters.
proof fn proof_od_head(o: Option<crate::date::Date>)
    ensures
        emit_opt_date(o).len() >= 4,
        emit_opt_date(o)[0] == 'n' || emit_opt_date(o)[0] == '"',
{
    reveal_strlit("null");
    match o {
        None => {},
        Some(d) => {
            assert(emit_nat(d.days)[0] == '"');
        },
    }
}

/// A dated item's document form starts with `{`.
proof fn proof_todo_head(im: crate::sync::ItemModel<crate::item::TodoValue>)
    ensures
        emit_todo(im).len() >= 1,
        emit_todo(im)[0] == '{',
{
    reveal_strlit("{\"body\":");
    assert(emit_todo(im)[0] == ("{\"body\":")@[0]);
}

/// A recurring item's document form starts with `{`.
proof fn proof_task_head(im: crate::sync::ItemModel<crate::item::TaskValue>)
    ensures
        emit_task(im).len() >= 1,
        emit_task(im)[0] == '{',
{
    reveal_strlit("{\"body\":");
    assert(emit_task(im)[0] == ("{\"body\":")@[0]);
}

/// True when the document form of the recurring item `im` stands at `pos`.
pub open spec fn task_at(
    s: Seq<char>,
    pos: int,
    im: crate::sync::ItemModel<crate::item::TaskValue>,
) -> bool {
    &&& 0 <= pos
    &&& pos + emit_task(im).len() <= s.len()
    &&& s.subrange(pos, pos + emit_task(im).len() as int) == emit_task(im)
}

/// Under a canonical recurring item at `pos`, each of its pieces stands at
/// its own offset.
proof fn lemma_task_shape(
    s: Seq<char>,
    pos: int,
    im: crate::sync::ItemModel<crate::item::TaskValue>,
)
    requires
        task_at(s, pos, im),
    ensures
        ({
            let p1 = pos + ("{\"body\":")@.len();
            let p2 = p1 + emit_string(im.val.body).len();
            let p3 = p2 + (",\"weekdays\":[")@.len();
            let p4 = p3 + emit_list(im.val.weekdays, wd_f()).len();
            let p5 = p4 + ("],\"done_map\":")@.len();
            let p6 = p5 + emit_done_map(im.val.done_map).len();
            let p7 = p6 + (",\"id\":")@.len();
            let p8 = p7 + emit_nat(im.pid).len();
            let p9 = p8 + (",\"sync_id\":")@.len();
            let p10 = p9 + emit_nat(im.sid).len();
            let p11 = p10 + (",\"state\":")@.len();
            let p12 = p11 + emit_state(im.st).len();
            let p13 = p12 + ("}")@.len();
            &&& s.subrange(pos, p1) == ("{\"body\":")@
            &&& string_at(s, p1, im.val.body)
            &&& s.subrange(p2, p3) == (",\"weekdays\":[")@
            &&& list_at(s, p3, im.val.weekdays, wd_f())
            &&& s.subrange(p4, p5) == ("],\"done_map\":")@
            &&& done_map_at(s, p5, im.val.done_map)
            &&& s.subrange(p6, p7) == (",\"id\":")@
            &&& s.subrange(p7, p8) == emit_nat(im.pid)
            &&& s.subrange(p8, p9) == (",\"sync_id\":")@
            &&& s.subrange(p9, p10) == emit_nat(im.sid)
            &&& s.subrange(p10, p11) == (",\"state\":")@
            &&& s.subrange(p11, p12) == emit_state(im.st)
            &&& s.subrange(p12, p13) == ("}")@
            &&& p13 == pos + emit_task(im).len()
        }),
{
    let l1 = ("{\"body\":")@;
    let e1 = emit_string(im.val.body);
    let lw = (",\"weekdays\":[")@;
    let ew = emit_list(im.val.weekdays, wd_f());
    let ld = ("],\"done_map\":")@;
    let ed = emit_done_map(im.val.done_map);
    let l3 = (",\"id\":")@;
    let e3 = emit_nat(im.pid);
    let l5 = (",\"sync_id\":")@;
    let e5 = emit_nat(im.sid);
    let l6 = (",\"state\":")@;
    let e6 = emit_state(im.st);
    let l7 = ("}")@;
    assert(emit_list(
        im.val.weekdays,
        |w: crate::date::Weekday| emit_weekday(w),
    ) == ew);
    lemma_chop(s, pos, l1, e1 + (lw + (ew + (ld + (ed + (l3 + (e3 + (l5 + (e5 + (l6 + (e6
        + l7)))))))))));
    let p1 = pos + l1.len();
    lemma_chop(s, p1, e1, lw + (ew + (ld + (ed + (l3 + (e3 + (l5 + (e5 + (l6 + (e6 + l7))))))))));
    let p2 = p1 + e1.len();
    lemma_chop(s, p2, lw, ew + (ld + (ed + (l3 + (e3 + (l5 + (e5 + (l6 + (e6 + l7)))))))));
    let p3 = p2 + lw.len();
    lemma_chop(s, p3, ew, ld + (ed + (l3 + (e3 + (l5 + (e5 + (l6 + (e6 + l7))))))));
    let p4 = p3 + ew.len();
    lemma_chop(s, p4, ld, ed + (l3 + (e3 + (l5 + (e5 + (l6 + (e6 + l7)))))));
    let p5 = p4 + ld.len();
    lemma_chop(s, p5, ed, l3 + (e3 + (l5 + (e5 + (l6 + (e6 + l7))))));
    let p6 = p5 + ed.len();
    lemma_chop(s, p6, l3, e3 + (l5 + (e5 + (l6 + (e6 + l7)))));
    let p7 = p6 + l3.len();
    lemma_chop(s, p7, e3, l5 + (e5 + (l6 + (e6 + l7))));
    let p8 = p7 + e3.len();
    lemma_chop(s, p8, l5, e5 + (l6 + (e6 + l7)));
    let p9 = p8 + l5.len();
    lemma_chop(s, p9, e5, l6 + (e6 + l7));
    let p10 = p9 + e5.len();
    lemma_chop(s, p10, l6, e6 + l7);
    let p11 = p10 + l6.len();
    lemma_chop(s, p11, e6, l7);
    reveal_strlit("],\"done_map\":");
    assert(s.subrange(p4, p5)[0] == s[p4]);
}

/// Thirteen adjacent windows holding a recurring item's pieces join into the
/// item's whole document form.
proof fn lemma_join_task(
    s: Seq<char>,
    pos: int,
    body: Seq<char>,
    ws: Seq<crate::date::Weekday>,
    dm: crate::item::DoneMap,
    id: u64,
    sync_id: u64,
    st: crate::sync::ItemState,
    e1: int,
    e2: int,
    e3: int,
    e4: int,
    e5: int,
    e6: int,
    e7: int,
    e8: int,
    e9: int,
    e10: int,
    e11: int,
    e12: int,
    e13: int,
)
    requires
        0 <= pos,
        e13 <= s.len(),
        e1 == pos + ("{\"body\":")@.len(),
        s.subrange(pos, e1) == ("{\"body\":")@,
        e2 == e1 + emit_string(body).len(),
        s.subrange(e1, e2) == emit_string(body),
        e3 == e2 + (",\"weekdays\":[")@.len(),
        s.subrange(e2, e3) == (",\"weekdays\":[")@,
        e4 == e3 + emit_list(ws, wd_f()).len(),
        s.subrange(e3, e4) == emit_list(ws, wd_f()),
        e5 == e4 + ("],\"done_map\":")@.len(),
        s.subrange(e4, e5) == ("],\"done_map\":")@,
        e6 == e5 + emit_done_map(dm).len(),
        s.subrange(e5, e6) == emit_done_map(dm),
        e7 == e6 + (",\"id\":")@.len(),
        s.subrange(e6, e7) == (",\"id\":")@,
        e8 == e7 + emit_nat(id).len(),
        s.subrange(e7, e8) == emit_nat(id),
        e9 == e8 + (",\"sync_id\":")@.len(),
        s.subrange(e8, e9) == (",\"sync_id\":")@,
        e10 == e9 + emit_nat(sync_id).len(),
        s.subrange(e9, e10) == emit_nat(sync_id),
        e11 == e10 + (",\"state\":")@.len(),
        s.subrange(e10, e11) == (",\"state\":")@,
        e12 == e11 + emit_state(st).len(),
        s.subrange(e11, e12) == emit_state(st),
        e13 == e12 + ("}")@.len(),
        s.subrange(e12, e13) == ("}")@,
    ensures
        ({
            let im = crate::sync::ItemModel {
                sid: sync_id,
                pid: id,
                st,
                val: crate::item::TaskValue { body, weekdays: ws, done_map: dm },
            };
            &&& task_at(s, pos, im)
            &&& e13 == pos + emit_task(im).len()
        }),
{
    assert(emit_list(ws, |w: crate::date::Weekday| emit_weekday(w)) == emit_list(ws, wd_f()));
    let g13 = ("}")@;
    let g12 = emit_state(st) + g13;
    lemma_join(s, e11, emit_state(st), g13);
    let g11 = (",\"state\":")@ + g12;
    lemma_join(s, e10, (",\"state\":")@, g12);
    let g10 = emit_nat(sync_id) + g11;
    lemma_join(s, e9, emit_nat(sync_id), g11);
    let g9 = (",\"sync_id\":")@ + g10;
    lemma_join(s, e8, (",\"sync_id\":")@, g10);
    let g8 = emit_nat(id) + g9;
    lemma_join(s, e7, emit_nat(id), g9);
    let g7 = (",\"id\":")@ + g8;
    lemma_join(s, e6, (",\"id\":")@, g8);
    let g6 = emit_done_map(dm) + g7;
    lemma_join(s, e5, emit_done_map(dm), g7);
    let g5 = ("],\"done_map\":")@ + g6;
    lemma_join(s, e4, ("],\"done_map\":")@, g6);
    let g4 = emit_list(ws, wd_f()) + g5;
    lemma_join(s, e3, emit_list(ws, wd_f()), g5);
    let g3 = (",\"weekdays\":[")@ + g4;
    lemma_join(s, e2, (",\"weekdays\":[")@, g4);
    let g2 = emit_string(body) + g3;
    lemma_join(s, e1, emit_string(body), g3);
    let g1 = ("{\"body\":")@ + g2;
    lemma_join(s, pos, ("{\"body\":")@, g2);
}

/// Reads the document form of one recurring item at `pos`.
#[verifier::rlimit(100)]
fn parse_task(s: &[char], pos: usize) -> (r: Result<(crate::item::Task, usize), crate::Error>)
    ensures
        forall|im: crate::sync::ItemModel<crate::item::TaskValue>|
            #![trigger task_at(s@, pos as int, im)]
            task_at(s@, pos as int, im) ==> (r matches Ok(p) && crate::sync::item_model(p.0)
                == im && p.1 == pos + emit_task(im).len()),
        r matches Ok(p) ==> task_at(s@, pos as int, crate::sync::item_model(p.0)) && p.1 == pos
            + emit_task(crate::sync::item_model(p.0)).len(),
        r matches Ok(p) ==> pos < p.1 <= s@.len(),
{
    let ghost slen = s@.len();
    let n = s.len();
    proof {
        assert(slen <= usize::MAX);
    }
    let e1 = match expect_lit(s, pos, "{\"body\":") {
        Ok(p) => p,
        Err(_) => {
            proof {
                assert forall|im: crate::sync::ItemModel<crate::item::TaskValue>| !task_at(s@, pos as int, im) by {
                    if task_at(s@, pos as int, im) {
                        lemma_task_shape(s@, pos as int, im);
                    }
                }
            }
            return Err(crate::Error::SerdeErr);
        },
    };
    let (body, e2) = match parse_string(s, e1) {
        Ok(p) => p,
        Err(_) => {
            proof {
                assert forall|im: crate::sync::ItemModel<crate::item::TaskValue>| !task_at(s@, pos as int, im) by {
                    if task_at(s@, pos as int, im) {
                        lemma_task_shape(s@, pos as int, im);
                    }
                }
            }
            return Err(crate::Error::SerdeErr);
        },
    };
    let e3 = match expect_lit(s, e2, ",\"weekdays\":[") {
        Ok(p) => p,
        Err(_) => {
            proof {
                assert forall|im: crate::sync::ItemModel<crate::item::TaskValue>| !task_at(s@, pos as int, im) by {
                    if task_at(s@, pos as int, im) {
                        lemma_task_shape(s@, pos as int, im);
                    }
                }
            }
            return Err(crate::Error::SerdeErr);
        },
    };
    let (ws, e4) = match parse_weekday_list(s, e3) {
        Ok(p) => p,
        Err(_) => {
            proof {
                assert forall|im: crate::sync::ItemModel<crate::item::TaskValue>| !task_at(s@, pos as int, im) by {
                    if task_at(s@, pos as int, im) {
                        lemma_task_shape(s@, pos as int, im);
                    }
                }
            }
            return Err(crate::Error::SerdeErr);
        },
    };
    let e5 = match expect_lit(s, e4, "],\"done_map\":") {
        Ok(p) => p,
        Err(_) => {
            proof {
                assert forall|im: crate::sync::ItemModel<crate::item::TaskValue>| !task_at(s@, pos as int, im) by {
                    if task_at(s@, pos as int, im) {
                        lemma_task_shape(s@, pos as int, im);
                    }
                }
            }
            return Err(crate::Error::SerdeErr);
        },
    };
    let (dm, e6) = match parse_done_map(s, e5) {
        Ok(p) => p,
        Err(_) => {
            proof {
                assert forall|im: crate::sync::ItemModel<crate::item::TaskValue>| !task_at(s@, pos as int, im) by {
                    if task_at(s@, pos as int, im) {
                        lemma_task_shape(s@, pos as int, im);
                    }
                }
            }
            return Err(crate::Error::SerdeErr);
        },
    };
    let e7 = match expect_lit(s, e6, ",\"id\":") {
        Ok(p) => p,
        Err(_) => {
            proof {
                assert forall|im: crate::sync::ItemModel<crate::item::TaskValue>| !task_at(s@, pos as int, im) by {
                    if task_at(s@, pos as int, im) {
                        lemma_task_shape(s@, pos as int, im);
                    }
                }
            }
            return Err(crate::Error::SerdeErr);
        },
    };
    let (id, e8) = match parse_nat(s, e7) {
        Ok(p) => p,
        Err(_) => {
            proof {
                assert forall|im: crate::sync::ItemModel<crate::item::TaskValue>| !task_at(s@, pos as int, im) by {
                    if task_at(s@, pos as int, im) {
                        lemma_task_shape(s@, pos as int, im);
                    }
                }
            }
            return Err(crate::Error::SerdeErr);
        },
    };
    let e9 = match expect_lit(s, e8, ",\"sync_id\":") {
        Ok(p) => p,
        Err(_) => {
            proof {
                assert forall|im: crate::sync::ItemModel<crate::item::TaskValue>| !task_at(s@, pos as int, im) by {
                    if task_at(s@, pos as int, im) {
                        lemma_task_shape(s@, pos as int, im);
                    }
                }
            }
            return Err(crate::Error::SerdeErr);
        },
    };
    let (sync_id, e10) = match parse_nat(s, e9) {
        Ok(p) => p,
        Err(_) => {
            proof {
                assert forall|im: crate::sync::ItemModel<crate::item::TaskValue>| !task_at(s@, pos as int, im) by {
                    if task_at(s@, pos as int, im) {
                        lemma_task_shape(s@, pos as int, im);
                    }
                }
            }
            return Err(crate::Error::SerdeErr);
        },
    };
    let e11 = match expect_lit(s, e10, ",\"state\":") {
        Ok(p) => p,
        Err(_) => {
            proof {
                assert forall|im: crate::sync::ItemModel<crate::item::TaskValue>| !task_at(s@, pos as int, im) by {
                    if task_at(s@, pos as int, im) {
                        lemma_task_shape(s@, pos as int, im);
                    }
                }
            }
            return Err(crate::Error::SerdeErr);
        },
    };
    let (state, e12) = match parse_state(s, e11) {
        Ok(p) => p,
        Err(_) => {
            proof {
                assert forall|im: crate::sync::ItemModel<crate::item::TaskValue>| !task_at(s@, pos as int, im) by {
                    if task_at(s@, pos as int, im) {
                        lemma_task_shape(s@, pos as int, im);
                    }
                }
            }
            return Err(crate::Error::SerdeErr);
        },
    };
    let e13 = match expect_lit(s, e12, "}") {
        Ok(p) => p,
        Err(_) => {
            proof {
                assert forall|im: crate::sync::ItemModel<crate::item::TaskValue>| !task_at(s@, pos as int, im) by {
                    if task_at(s@, pos as int, im) {
                        lemma_task_shape(s@, pos as int, im);
                    }
                }
            }
            return Err(crate::Error::SerdeErr);
        },
    };
    let t = crate::item::Task {
        body: chars_string(&body),
        weekdays: ws,
        done_map: dm,
        id,
        state,
        sync_id,
    };
    proof {
        assert forall|im: crate::sync::ItemModel<crate::item::TaskValue>|
            task_at(s@, pos as int, im) implies crate::sync::item_model(t) == im && e13 == pos
            + emit_task(im).len() by {
            lemma_task_shape(s@, pos as int, im);
        }
        lemma_join_task(
            s@,
            pos as int,
            body@,
            ws@,
            dm,
            id,
            sync_id,
            state,
            e1 as int,
            e2 as int,
            e3 as int,
            e4 as int,
            e5 as int,
            e6 as int,
            e7 as int,
            e8 as int,
            e9 as int,
            e10 as int,
            e11 as int,
            e12 as int,
            e13 as int,
        );
        assert(crate::sync::item_model(t) == (crate::sync::ItemModel {
            sid: sync_id,
            pid: id,
            st: state,
            val: crate::item::TaskValue { body: body@, weekdays: ws@, done_map: dm },
        }));
    }
    Ok((t, e13))
}

/// Reads a comma-separated list of weekdays at `pos`, stopping at the `]`
/// that closes it (not consumed).
#[verifier::rlimit(100)]
fn parse_weekday_list(s: &[char], pos: usize) -> (r: Result<(Vec<crate::date::Weekday>, usize), crate::Error>)
    ensures
        forall|xs: Seq<crate::date::Weekday>|
            #![trigger list_at(s@, pos as int, xs, wd_f())]
            list_at(s@, pos as int, xs, wd_f()) ==> (r matches Ok(p) && p.0@ == xs && p.1
                == pos + emit_list(xs, wd_f()).len()),
        r matches Ok(p) ==> {
            &&& pos <= p.1 <= s@.len()
            &&& s@.subrange(pos as int, p.1 as int) == emit_list(p.0@, wd_f())
            &&& p.1 == pos + emit_list(p.0@, wd_f()).len()
        },
        r matches Ok(p) ==> pos <= p.1 <= s@.len(),
{
    let ghost slen = s@.len();
    let n = s.len();
    proof {
        assert(slen <= usize::MAX);
    }
    if pos >= n {
        return Err(crate::Error::SerdeErr);
    }
    let mut out: Vec<crate::date::Weekday> = Vec::new();
    let mut cur: usize = pos;
    proof {
        assert forall|xs: Seq<crate::date::Weekday>|
            #![trigger list_at(s@, pos as int, xs, wd_f())]
            list_at(s@, pos as int, xs, wd_f()) implies xs.take(0) =~= Seq::<crate::date::Weekday>::empty()
            && emit_list(xs.take(0), wd_f()).len() == 0 by {
            assert(xs.take(0).len() == 0);
        }
    }
    proof {
        assert(out@.len() == 0);
        assert(s@.subrange(pos as int, pos as int) =~= emit_list(out@, wd_f()));
    }
    loop
        invariant
            pos <= cur <= n,
            n == s@.len(),
            s@.subrange(pos as int, cur as int) == emit_list(out@, wd_f()),
            forall|xs: Seq<crate::date::Weekday>|
                #![trigger list_at(s@, pos as int, xs, wd_f())]
                list_at(s@, pos as int, xs, wd_f()) ==> {
                    &&& out@.len() <= xs.len()
                    &&& out@ == xs.take(out@.len() as int)
                    &&& cur == pos + emit_list(xs.take(out@.len() as int), wd_f()).len()
                },
        decreases n - cur,
    {
        if cur >= n {
            proof {
                assert forall|xs: Seq<crate::date::Weekday>| !list_at(s@, pos as int, xs, wd_f()) by {
                    if list_at(s@, pos as int, xs, wd_f()) {
                        lemma_list_next(s@, pos as int, xs, wd_f(), out@.len() as int);
                    }
                }
            }
            return Err(crate::Error::SerdeErr);
        }
        let c = s[cur];
        if c == ']' {
            proof {
                assert forall|xs: Seq<crate::date::Weekday>|
                    list_at(s@, pos as int, xs, wd_f()) implies out@ == xs && cur == pos
                    + emit_list(xs, wd_f()).len() by {
                    let k = out@.len() as int;
                    lemma_list_next(s@, pos as int, xs, wd_f(), k);
                    if k < xs.len() {
                        if k > 0 {
                            assert(s@[cur as int] == ',');
                        } else {
                            let w = wd_f()(xs[0]);
                            assert(wd_f()(xs[0]) == emit_weekday(xs[0]));
                            assert(w[0] == digit_char(xs[0].spec_num() as int));
                            assert(s@.subrange(cur as int, cur as int + w.len() as int)[0]
                                == s@[cur as int]);
                        }
                        assert(false);
                    }
                    assert(xs.take(k) == xs);
                }
            }
            return Ok((out, cur));
        }
        let item_pos: usize = if out.len() == 0 {
            cur
        } else {
            if c != ',' {
                proof {
                    assert forall|xs: Seq<crate::date::Weekday>| !list_at(s@, pos as int, xs, wd_f()) by {
                        if list_at(s@, pos as int, xs, wd_f()) {
                            let k = out@.len() as int;
                            lemma_list_next(s@, pos as int, xs, wd_f(), k);
                        }
                    }
                }
                return Err(crate::Error::SerdeErr);
            }
            cur + 1
        };
        proof {
            assert forall|xs: Seq<crate::date::Weekday>|
                list_at(s@, pos as int, xs, wd_f()) implies {
                let k = out@.len() as int;
                &&& k < xs.len()
                &&& ({
                    let w = wd_f()(xs[k]);
                    &&& item_pos + w.len() <= s@.len()
                    &&& s@.subrange(item_pos as int, item_pos as int + w.len() as int) == w
                    &&& emit_list(xs.take(k + 1), wd_f()).len() == (item_pos - pos) + w.len()
                })
            } by {
                let k = out@.len() as int;
                lemma_list_next(s@, pos as int, xs, wd_f(), k);
            }
        }
        let parsed = parse_weekday(s, item_pos);
        let (item, e) = match parsed {
            Ok(p) => p,
            Err(_) => {
                proof {
                    assert forall|xs: Seq<crate::date::Weekday>| !list_at(s@, pos as int, xs, wd_f()) by {
                        if list_at(s@, pos as int, xs, wd_f()) {
                            let k = out@.len() as int;
                            lemma_list_next(s@, pos as int, xs, wd_f(), k);
                            assert(wd_f()(xs[k]) == emit_weekday(xs[k]));
                        }
                    }
                }
                return Err(crate::Error::SerdeErr);
            },
        };
        let ghost pre = out@;
        out.push(item);
        proof {
            
            let m = item;
            assert(wd_f()(m) == emit_weekday(m));
            assert(out@ =~= pre.push(m));
            if pre.len() == 0 {
                assert(emit_list(out@, wd_f()) == wd_f()(out@[0]));
                assert(s@.subrange(pos as int, e as int) == emit_list(out@, wd_f()));
            } else {
                assert(s@.subrange(cur as int, cur as int + 1) =~= seq![',']);
                lemma_join(s@, cur as int, seq![','], emit_weekday(m));
                lemma_join(s@, pos as int, emit_list(pre, wd_f()), seq![','] + emit_weekday(m));
                assert(out@.drop_last() =~= pre);
                assert(out@.last() == m);
                assert(emit_list(out@, wd_f()) =~= emit_list(pre, wd_f()) + (seq![','] + emit_weekday(
                    m,
                )));
                assert(s@.subrange(pos as int, e as int) == emit_list(out@, wd_f()));
            }
            assert forall|xs: Seq<crate::date::Weekday>|
                list_at(s@, pos as int, xs, wd_f()) implies {
                &&& out@.len() <= xs.len()
                &&& out@ == xs.take(out@.len() as int)
                &&& e == pos + emit_list(xs.take(out@.len() as int), wd_f()).len()
            } by {
                let k = pre.len() as int;
                lemma_list_next(s@, pos as int, xs, wd_f(), k);
                assert(wd_f()(xs[k]) == emit_weekday(xs[k]));
                assert(out@ =~= pre.push(item));
                assert(xs.take(k + 1) =~= xs.take(k).push(xs[k]));
            }
        }
        cur = e;
    }
}


/// Reads a comma-separated list of completion entries at `pos`, stopping at the `]`
/// that closes it (not consumed).
#[verifier::rlimit(100)]
fn parse_opt_date_list(s: &[char], pos: usize) -> (r: Result<(Vec<Option<crate::date::Date>>, usize), crate::Error>)
    ensures
        forall|xs: Seq<Option<crate::date::Date>>|
            #![trigger list_at(s@, pos as int, xs, od_f())]
            list_at(s@, pos as int, xs, od_f()) ==> (r matches Ok(p) && p.0@ == xs && p.1
                == pos + emit_list(xs, od_f()).len()),
        r matches Ok(p) ==> {
            &&& pos <= p.1 <= s@.len()
            &&& s@.subrange(pos as int, p.1 as int) == emit_list(p.0@, od_f())
            &&& p.1 == pos + emit_list(p.0@, od_f()).len()
        },
        r matches Ok(p) ==> pos <= p.1 <= s@.len(),
{
    let ghost slen = s@.len();
    let n = s.len();
    proof {
        assert(slen <= usize::MAX);
    }
    if pos >= n {
        return Err(crate::Error::SerdeErr);
    }
    let mut out: Vec<Option<crate::date::Date>> = Vec::new();
    let mut cur: usize = pos;
    proof {
        assert forall|xs: Seq<Option<crate::date::Date>>|
            #![trigger list_at(s@, pos as int, xs, od_f())]
            list_at(s@, pos as int, xs, od_f()) implies xs.take(0) =~= Seq::<Option<crate::date::Date>>::empty()
            && emit_list(xs.take(0), od_f()).len() == 0 by {
            assert(xs.take(0).len() == 0);
        }
    }
    proof {
        assert(out@.len() == 0);
        assert(s@.subrange(pos as int, pos as int) =~= emit_list(out@, od_f()));
    }
    loop
        invariant
            pos <= cur <= n,
            n == s@.len(),
            s@.subrange(pos as int, cur as int) == emit_list(out@, od_f()),
            forall|xs: Seq<Option<crate::date::Date>>|
                #![trigger list_at(s@, pos as int, xs, od_f())]
                list_at(s@, pos as int, xs, od_f()) ==> {
                    &&& out@.len() <= xs.len()
                    &&& out@ == xs.take(out@.len() as int)
                    &&& cur == pos + emit_list(xs.take(out@.len() as int), od_f()).len()
                },
        decreases n - cur,
    {
        if cur >= n {
            proof {
                assert forall|xs: Seq<Option<crate::date::Date>>| !list_at(s@, pos as int, xs, od_f()) by {
                    if list_at(s@, pos as int, xs, od_f()) {
                        lemma_list_next(s@, pos as int, xs, od_f(), out@.len() as int);
                    }
                }
            }
            return Err(crate::Error::SerdeErr);
        }
        let c = s[cur];
        if c == ']' {
            proof {
                assert forall|xs: Seq<Option<crate::date::Date>>|
                    list_at(s@, pos as int, xs, od_f()) implies out@ == xs && cur == pos
                    + emit_list(xs, od_f()).len() by {
                    let k = out@.len() as int;
                    lemma_list_next(s@, pos as int, xs, od_f(), k);
                    if k < xs.len() {
                        if k > 0 {
                            assert(s@[cur as int] == ',');
                        } else {
                            let w = od_f()(xs[0]);
                            assert(od_f()(xs[0]) == emit_opt_date(xs[0]));
                            proof_od_head(xs[0]);
                            assert(s@.subrange(cur as int, cur as int + w.len() as int)[0]
                                == s@[cur as int]);
                        }
                        assert(false);
                    }
                    assert(xs.take(k) == xs);
                }
            }
            return Ok((out, cur));
        }
        let item_pos: usize = if out.len() == 0 {
            cur
        } else {
            if c != ',' {
                proof {
                    assert forall|xs: Seq<Option<crate::date::Date>>| !list_at(s@, pos as int, xs, od_f()) by {
                        if list_at(s@, pos as int, xs, od_f()) {
                            let k = out@.len() as int;
                            lemma_list_next(s@, pos as int, xs, od_f(), k);
                        }
                    }
                }
                return Err(crate::Error::SerdeErr);
            }
            cur + 1
        };
        proof {
            assert forall|xs: Seq<Option<crate::date::Date>>|
                list_at(s@, pos as int, xs, od_f()) implies {
                let k = out@.len() as int;
                &&& k < xs.len()
                &&& ({
                    let w = od_f()(xs[k]);
                    &&& item_pos + w.len() <= s@.len()
                    &&& s@.subrange(item_pos as int, item_pos as int + w.len() as int) == w
                    &&& emit_list(xs.take(k + 1), od_f()).len() == (item_pos - pos) + w.len()
                })
            } by {
                let k = out@.len() as int;
                lemma_list_next(s@, pos as int, xs, od_f(), k);
            }
        }
        let parsed = parse_opt_date(s, item_pos);
        let (item, e) = match parsed {
            Ok(p) => p,
            Err(_) => {
                proof {
                    assert forall|xs: Seq<Option<crate::date::Date>>| !list_at(s@, pos as int, xs, od_f()) by {
                        if list_at(s@, pos as int, xs, od_f()) {
                            let k = out@.len() as int;
                            lemma_list_next(s@, pos as int, xs, od_f(), k);
                            assert(od_f()(xs[k]) == emit_opt_date(xs[k]));
                        }
                    }
                }
                return Err(crate::Error::SerdeErr);
            },
        };
        let ghost pre = out@;
        out.push(item);
        proof {
            
            let m = item;
            assert(od_f()(m) == emit_opt_date(m));
            assert(out@ =~= pre.push(m));
            if pre.len() == 0 {
                assert(emit_list(out@, od_f()) == od_f()(out@[0]));
                assert(s@.subrange(pos as int, e as int) == emit_list(out@, od_f()));
            } else {
                assert(s@.subrange(cur as int, cur as int + 1) =~= seq![',']);
                lemma_join(s@, cur as int, seq![','], emit_opt_date(m));
                lemma_join(s@, pos as int, emit_list(pre, od_f()), seq![','] + emit_opt_date(m));
                assert(out@.drop_last() =~= pre);
                assert(out@.last() == m);
                assert(emit_list(out@, od_f()) =~= emit_list(pre, od_f()) + (seq![','] + emit_opt_date(
                    m,
                )));
                assert(s@.subrange(pos as int, e as int) == emit_list(out@, od_f()));
            }
            assert forall|xs: Seq<Option<crate::date::Date>>|
                list_at(s@, pos as int, xs, od_f()) implies {
                &&& out@.len() <= xs.len()
                &&& out@ == xs.take(out@.len() as int)
                &&& e == pos + emit_list(xs.take(out@.len() as int), od_f()).len()
            } by {
                let k = pre.len() as int;
                lemma_list_next(s@, pos as int, xs, od_f(), k);
                assert(od_f()(xs[k]) == emit_opt_date(xs[k]));
                assert(out@ =~= pre.push(item));
                assert(xs.take(k + 1) =~= xs.take(k).push(xs[k]));
            }
        }
        cur = e;
    }
}


/// Reads a comma-separated list of dated items at `pos`, stopping at the `]`
/// that closes it (not consumed).
#[verifier::rlimit(100)]
fn parse_todo_list(s: &[char], pos: usize) -> (r: Result<(Vec<crate::item::Todo>, usize), crate::Error>)
    ensures
        forall|xs: Seq<crate::sync::ItemModel<crate::item::TodoValue>>|
            #![trigger list_at(s@, pos as int, xs, todo_f())]
            list_at(s@, pos as int, xs, todo_f()) ==> (r matches Ok(p) && crate::sync::models(p.0@) == xs && p.1
                == pos + emit_list(xs, todo_f()).len()),
        r matches Ok(p) ==> {
            &&& pos <= p.1 <= s@.len()
            &&& s@.subrange(pos as int, p.1 as int) == emit_list(crate::sync::models(p.0@), todo_f())
            &&& p.1 == pos + emit_list(crate::sync::models(p.0@), todo_f()).len()
        },
        r matches Ok(p) ==> pos <= p.1 <= s@.len(),
{
    let ghost slen = s@.len();
    let n = s.len();
    proof {
        assert(slen <= usize::MAX);
    }
    if pos >= n {
        return Err(crate::Error::SerdeErr);
    }
    let mut out: Vec<crate::item::Todo> = Vec::new();
    let mut cur: usize = pos;
    proof {
        assert forall|xs: Seq<crate::sync::ItemModel<crate::item::TodoValue>>|
            #![trigger list_at(s@, pos as int, xs, todo_f())]
            list_at(s@, pos as int, xs, todo_f()) implies xs.take(0) =~= Seq::<crate::sync::ItemModel<crate::item::TodoValue>>::empty()
            && emit_list(xs.take(0), todo_f()).len() == 0 by {
            assert(xs.take(0).len() == 0);
        }
    }
    proof {
        assert(crate::sync::models(out@).len() == 0);
        assert(s@.subrange(pos as int, pos as int) =~= emit_list(crate::sync::models(out@), todo_f()));
    }
    loop
        invariant
            pos <= cur <= n,
            n == s@.len(),
            s@.subrange(pos as int, cur as int) == emit_list(crate::sync::models(out@), todo_f()),
            forall|xs: Seq<crate::sync::ItemModel<crate::item::TodoValue>>|
                #![trigger list_at(s@, pos as int, xs, todo_f())]
                list_at(s@, pos as int, xs, todo_f()) ==> {
                    &&& out@.len() <= xs.len()
                    &&& crate::sync::models(out@) == xs.take(out@.len() as int)
                    &&& cur == pos + emit_list(xs.take(out@.len() as int), todo_f()).len()
                },
        decreases n - cur,
    {
        if cur >= n {
            proof {
                assert forall|xs: Seq<crate::sync::ItemModel<crate::item::TodoValue>>| !list_at(s@, pos as int, xs, todo_f()) by {
                    if list_at(s@, pos as int, xs, todo_f()) {
                        lemma_list_next(s@, pos as int, xs, todo_f(), out@.len() as int);
                    }
                }
            }
            return Err(crate::Error::SerdeErr);
        }
        let c = s[cur];
        if c == ']' {
            proof {
                assert forall|xs: Seq<crate::sync::ItemModel<crate::item::TodoValue>>|
                    list_at(s@, pos as int, xs, todo_f()) implies crate::sync::models(out@) == xs && cur == pos
                    + emit_list(xs, todo_f()).len() by {
                    let k = out@.len() as int;
                    lemma_list_next(s@, pos as int, xs, todo_f(), k);
                    if k < xs.len() {
                        if k > 0 {
                            assert(s@[cur as int] == ',');
                        } else {
                            let w = todo_f()(xs[0]);
                            assert(todo_f()(xs[0]) == emit_todo(xs[0]));
                            proof_todo_head(xs[0]);
                            assert(s@.subrange(cur as int, cur as int + w.len() as int)[0]
                                == s@[cur as int]);
                        }
                        assert(false);
                    }
                    assert(xs.take(k) == xs);
                }
            }
            return Ok((out, cur));
        }
        let item_pos: usize = if out.len() == 0 {
            cur
        } else {
            if c != ',' {
                proof {
                    assert forall|xs: Seq<crate::sync::ItemModel<crate::item::TodoValue>>| !list_at(s@, pos as int, xs, todo_f()) by {
                        if list_at(s@, pos as int, xs, todo_f()) {
                            let k = out@.len() as int;
                            lemma_list_next(s@, pos as int, xs, todo_f(), k);
                        }
                    }
                }
                return Err(crate::Error::SerdeErr);
            }
            cur + 1
        };
        proof {
            assert forall|xs: Seq<crate::sync::ItemModel<crate::item::TodoValue>>|
                list_at(s@, pos as int, xs, todo_f()) implies {
                let k = out@.len() as int;
                &&& k < xs.len()
                &&& ({
                    let w = todo_f()(xs[k]);
                    &&& item_pos + w.len() <= s@.len()
                    &&& s@.subrange(item_pos as int, item_pos as int + w.len() as int) == w
                    &&& emit_list(xs.take(k + 1), todo_f()).len() == (item_pos - pos) + w.len()
                })
            } by {
                let k = out@.len() as int;
                lemma_list_next(s@, pos as int, xs, todo_f(), k);
            }
        }
        let parsed = parse_todo(s, item_pos);
        let (item, e) = match parsed {
            Ok(p) => p,
            Err(_) => {
                proof {
                    assert forall|xs: Seq<crate::sync::ItemModel<crate::item::TodoValue>>| !list_at(s@, pos as int, xs, todo_f()) by {
                        if list_at(s@, pos as int, xs, todo_f()) {
                            let k = out@.len() as int;
                            lemma_list_next(s@, pos as int, xs, todo_f(), k);
                            assert(todo_f()(xs[k]) == emit_todo(xs[k]));
                            assert(todo_at(s@, item_pos as int, xs[k]));
                        }
                    }
                }
                return Err(crate::Error::SerdeErr);
            },
        };
        let ghost pre = out@;
        out.push(item);
        proof {
            crate::sync::lemma_models_push(pre, item);
            let m = crate::sync::item_model(item);
            assert(todo_f()(m) == emit_todo(m));
            assert(crate::sync::models(out@) =~= crate::sync::models(pre).push(m));
            if pre.len() == 0 {
                assert(emit_list(crate::sync::models(out@), todo_f()) == todo_f()(crate::sync::models(out@)[0]));
                assert(s@.subrange(pos as int, e as int) == emit_list(crate::sync::models(out@), todo_f()));
            } else {
                assert(s@.subrange(cur as int, cur as int + 1) =~= seq![',']);
                lemma_join(s@, cur as int, seq![','], emit_todo(m));
                lemma_join(s@, pos as int, emit_list(crate::sync::models(pre), todo_f()), seq![','] + emit_todo(m));
                assert(crate::sync::models(out@).drop_last() =~= crate::sync::models(pre));
                assert(crate::sync::models(out@).last() == m);
                assert(emit_list(crate::sync::models(out@), todo_f()) =~= emit_list(crate::sync::models(pre), todo_f()) + (seq![','] + emit_todo(
                    m,
                )));
                assert(s@.subrange(pos as int, e as int) == emit_list(crate::sync::models(out@), todo_f()));
            }
            assert forall|xs: Seq<crate::sync::ItemModel<crate::item::TodoValue>>|
                list_at(s@, pos as int, xs, todo_f()) implies {
                &&& out@.len() <= xs.len()
                &&& crate::sync::models(out@) == xs.take(out@.len() as int)
                &&& e == pos + emit_list(xs.take(out@.len() as int), todo_f()).len()
            } by {
                let k = pre.len() as int;
                lemma_list_next(s@, pos as int, xs, todo_f(), k);
                assert(todo_f()(xs[k]) == emit_todo(xs[k]));
                            assert(todo_at(s@, item_pos as int, xs[k]));
                crate::sync::lemma_models_push(pre, item);
                assert(xs.take(k + 1) =~= xs.take(k).push(xs[k]));
            }
        }
        cur = e;
    }
}


/// Reads a comma-separated list of recurring items at `pos`, stopping at the `]`
/// that closes it (not consumed).
#[verifier::rlimit(100)]
fn parse_task_list(s: &[char], pos: usize) -> (r: Result<(Vec<crate::item::Task>, usize), crate::Error>)
    ensures
        forall|xs: Seq<crate::sync::ItemModel<crate::item::TaskValue>>|
            #![trigger list_at(s@, pos as int, xs, task_f())]
            list_at(s@, pos as int, xs, task_f()) ==> (r matches Ok(p) && crate::sync::models(p.0@) == xs && p.1
                == pos + emit_list(xs, task_f()).len()),
        r matches Ok(p) ==> {
            &&& pos <= p.1 <= s@.len()
            &&& s@.subrange(pos as int, p.1 as int) == emit_list(crate::sync::models(p.0@), task_f())
            &&& p.1 == pos + emit_list(crate::sync::models(p.0@), task_f()).len()
        },
        r matches Ok(p) ==> pos <= p.1 <= s@.len(),
{
    let ghost slen = s@.len();
    let n = s.len();
    proof {
        assert(slen <= usize::MAX);
    }
    if pos >= n {
        return Err(crate::Error::SerdeErr);
    }
    let mut out: Vec<crate::item::Task> = Vec::new();
    let mut cur: usize = pos;
    proof {
        assert forall|xs: Seq<crate::sync::ItemModel<crate::item::TaskValue>>|
            #![trigger list_at(s@, pos as int, xs, task_f())]
            list_at(s@, pos as int, xs, task_f()) implies xs.take(0) =~= Seq::<crate::sync::ItemModel<crate::item::TaskValue>>::empty()
            && emit_list(xs.take(0), task_f()).len() == 0 by {
            assert(xs.take(0).len() == 0);
        }
    }
    proof {
        assert(crate::sync::models(out@).len() == 0);
        assert(s@.subrange(pos as int, pos as int) =~= emit_list(crate::sync::models(out@), task_f()));
    }
    loop
        invariant
            pos <= cur <= n,
            n == s@.len(),
            s@.subrange(pos as int, cur as int) == emit_list(crate::sync::models(out@), task_f()),
            forall|xs: Seq<crate::sync::ItemModel<crate::item::TaskValue>>|
                #![trigger list_at(s@, pos as int, xs, task_f())]
                list_at(s@, pos as int, xs, task_f()) ==> {
                    &&& out@.len() <= xs.len()
                    &&& crate::sync::models(out@) == xs.take(out@.len() as int)
                    &&& cur == pos + emit_list(xs.take(out@.len() as int), task_f()).len()
                },
        decreases n - cur,
    {
        if cur >= n {
            proof {
                assert forall|xs: Seq<crate::sync::ItemModel<crate::item::TaskValue>>| !list_at(s@, pos as int, xs, task_f()) by {
                    if list_at(s@, pos as int, xs, task_f()) {
                        lemma_list_next(s@, pos as int, xs, task_f(), out@.len() as int);
                    }
                }
            }
            return Err(crate::Error::SerdeErr);
        }
        let c = s[cur];
        if c == ']' {
            proof {
                assert forall|xs: Seq<crate::sync::ItemModel<crate::item::TaskValue>>|
                    list_at(s@, pos as int, xs, task_f()) implies crate::sync::models(out@) == xs && cur == pos
                    + emit_list(xs, task_f()).len() by {
                    let k = out@.len() as int;
                    lemma_list_next(s@, pos as int, xs, task_f(), k);
                    if k < xs.len() {
                        if k > 0 {
                            assert(s@[cur as int] == ',');
                        } else {
                            let w = task_f()(xs[0]);
                            assert(task_f()(xs[0]) == emit_task(xs[0]));
                            proof_task_head(xs[0]);
                            assert(s@.subrange(cur as int, cur as int + w.len() as int)[0]
                                == s@[cur as int]);
                        }
                        assert(false);
                    }
                    assert(xs.take(k) == xs);
                }
            }
            return Ok((out, cur));
        }
        let item_pos: usize = if out.len() == 0 {
            cur
        } else {
            if c != ',' {
                proof {
                    assert forall|xs: Seq<crate::sync::ItemModel<crate::item::TaskValue>>| !list_at(s@, pos as int, xs, task_f()) by {
                        if list_at(s@, pos as int, xs, task_f()) {
                            let k = out@.len() as int;
                            lemma_list_next(s@, pos as int, xs, task_f(), k);
                        }
                    }
                }
                return Err(crate::Error::SerdeErr);
            }
            cur + 1
        };
        proof {
            assert forall|xs: Seq<crate::sync::ItemModel<crate::item::TaskValue>>|
                list_at(s@, pos as int, xs, task_f()) implies {
                let k = out@.len() as int;
                &&& k < xs.len()
                &&& ({
                    let w = task_f()(xs[k]);
                    &&& item_pos + w.len() <= s@.len()
                    &&& s@.subrange(item_pos as int, item_pos as int + w.len() as int) == w
                    &&& emit_list(xs.take(k + 1), task_f()).len() == (item_pos - pos) + w.len()
                })
            } by {
                let k = out@.len() as int;
                lemma_list_next(s@, pos as int, xs, task_f(), k);
            }
        }
        let parsed = parse_task(s, item_pos);
        let (item, e) = match parsed {
            Ok(p) => p,
            Err(_) => {
                proof {
                    assert forall|xs: Seq<crate::sync::ItemModel<crate::item::TaskValue>>| !list_at(s@, pos as int, xs, task_f()) by {
                        if list_at(s@, pos as int, xs, task_f()) {
                            let k = out@.len() as int;
                            lemma_list_next(s@, pos as int, xs, task_f(), k);
                            assert(task_f()(xs[k]) == emit_task(xs[k]));
                            assert(task_at(s@, item_pos as int, xs[k]));
                        }
                    }
                }
                return Err(crate::Error::SerdeErr);
            },
        };
        let ghost pre = out@;
        out.push(item);
        proof {
            crate::sync::lemma_models_push(pre, item);
            let m = crate::sync::item_model(item);
            assert(task_f()(m) == emit_task(m));
            assert(crate::sync::models(out@) =~= crate::sync::models(pre).push(m));
            if pre.len() == 0 {
                assert(emit_list(crate::sync::models(out@), task_f()) == task_f()(crate::sync::models(out@)[0]));
                assert(s@.subrange(pos as int, e as int) == emit_list(crate::sync::models(out@), task_f()));
            } else {
                assert(s@.subrange(cur as int, cur as int + 1) =~= seq![',']);
                lemma_join(s@, cur as int, seq![','], emit_task(m));
                lemma_join(s@, pos as int, emit_list(crate::sync::models(pre), task_f()), seq![','] + emit_task(m));
                assert(crate::sync::models(out@).drop_last() =~= crate::sync::models(pre));
                assert(crate::sync::models(out@).last() == m);
                assert(emit_list(crate::sync::models(out@), task_f()) =~= emit_list(crate::sync::models(pre), task_f()) + (seq![','] + emit_task(
                    m,
                )));
                assert(s@.subrange(pos as int, e as int) == emit_list(crate::sync::models(out@), task_f()));
            }
            assert forall|xs: Seq<crate::sync::ItemModel<crate::item::TaskValue>>|
                list_at(s@, pos as int, xs, task_f()) implies {
                &&& out@.len() <= xs.len()
                &&& crate::sync::models(out@) == xs.take(out@.len() as int)
                &&& e == pos + emit_list(xs.take(out@.len() as int), task_f()).len()
            } by {
                let k = pre.len() as int;
                lemma_list_next(s@, pos as int, xs, task_f(), k);
                assert(task_f()(xs[k]) == emit_task(xs[k]));
                            assert(task_at(s@, item_pos as int, xs[k]));
                crate::sync::lemma_models_push(pre, item);
                assert(xs.take(k + 1) =~= xs.take(k).push(xs[k]));
            }
        }
        cur = e;
    }
}

/// Reads the document form of a completion map at `pos`.
fn parse_done_map(s: &[char], pos: usize) -> (r: Result<
    (crate::item::DoneMap, usize),
    crate::Error,
>)
    ensures
        forall|dm: crate::item::DoneMap|
            #![trigger done_map_at(s@, pos as int, dm)]
            done_map_at(s@, pos as int, dm) ==> (r matches Ok(p) && p.0 == dm && p.1 == pos
                + emit_done_map(dm).len()),
        r matches Ok(p) ==> done_map_at(s@, pos as int, p.0) && p.1 == pos + emit_done_map(
            p.0,
        ).len(),
        r matches Ok(p) ==> pos < p.1 <= s@.len(),
{
    let e1 = match expect_char(s, pos, '[') {
        Ok(e) => e,
        Err(_) => {
            proof {
                assert forall|dm: crate::item::DoneMap| !done_map_at(s@, pos as int, dm) by {
                    if done_map_at(s@, pos as int, dm) {
                        lemma_done_map_shape(s@, pos as int, dm);
                    }
                }
            }
            return Err(crate::Error::SerdeErr);
        },
    };
    let (entries, e2) = match parse_opt_date_list(s, e1) {
        Ok(p) => p,
        Err(_) => {
            proof {
                assert forall|dm: crate::item::DoneMap| !done_map_at(s@, pos as int, dm) by {
                    if done_map_at(s@, pos as int, dm) {
                        lemma_done_map_shape(s@, pos as int, dm);
                    }
                }
            }
            return Err(crate::Error::SerdeErr);
        },
    };
    let e3 = match expect_char(s, e2, ']') {
        Ok(e) => e,
        Err(_) => {
            proof {
                assert forall|dm: crate::item::DoneMap| !done_map_at(s@, pos as int, dm) by {
                    if done_map_at(s@, pos as int, dm) {
                        lemma_done_map_shape(s@, pos as int, dm);
                    }
                }
            }
            return Err(crate::Error::SerdeErr);
        },
    };
    if entries.len() != 7 {
        proof {
            assert forall|dm: crate::item::DoneMap| !done_map_at(s@, pos as int, dm) by {
                if done_map_at(s@, pos as int, dm) {
                    lemma_done_map_shape(s@, pos as int, dm);
                }
            }
        }
        return Err(crate::Error::SerdeErr);
    }
    let dm = crate::item::DoneMap {
        mon: entries[0],
        tue: entries[1],
        wed: entries[2],
        thu: entries[3],
        fri: entries[4],
        sat: entries[5],
        sun: entries[6],
    };
    proof {
        assert forall|dm2: crate::item::DoneMap|
            done_map_at(s@, pos as int, dm2) implies dm == dm2 && e3 == pos + emit_done_map(
            dm2,
        ).len() by {
            lemma_done_map_shape(s@, pos as int, dm2);
            assert(entries@ == dm_entries(dm2));
            assert(entries@[0] == dm2.mon && entries@[1] == dm2.tue && entries@[2] == dm2.wed
                && entries@[3] == dm2.thu && entries@[4] == dm2.fri && entries@[5] == dm2.sat
                && entries@[6] == dm2.sun);
        }
        assert(dm_entries(dm) =~= entries@);
        assert(emit_list(
            dm_entries(dm),
            |o: Option<crate::date::Date>| emit_opt_date(o),
        ) == emit_list(entries@, od_f()));
        assert(s@.subrange(pos as int, pos as int + 1) =~= seq!['[']);
        assert(s@.subrange(e2 as int, e2 as int + 1) =~= seq![']']);
        lemma_join(s@, e1 as int, emit_list(entries@, od_f()), seq![']']);
        lemma_join(s@, pos as int, seq!['['], emit_list(entries@, od_f()) + seq![']']);
        assert(s@.subrange(pos as int, e3 as int) == emit_done_map(dm));
    }
    Ok((dm, e3))
}

/// Under a canonical completion map at `pos`, the bracketed entry list stands
/// behind the opening bracket.
proof fn lemma_done_map_shape(s: Seq<char>, pos: int, dm: crate::item::DoneMap)
    requires
        done_map_at(s, pos, dm),
    ensures
        s[pos] == '[',
        list_at(s, pos + 1, dm_entries(dm), od_f()),
        pos + 1 + emit_list(dm_entries(dm), od_f()).len() + 1 == pos + emit_done_map(dm).len(),
        s[pos + 1 + emit_list(dm_entries(dm), od_f()).len()] == ']',
        dm_entries(dm).len() == 7,
{
    let el = emit_list(dm_entries(dm), od_f());
    assert(emit_list(
        dm_entries(dm),
        |o: Option<crate::date::Date>| emit_opt_date(o),
    ) == el);
    lemma_chop(s, pos, seq!['['], el + seq![']']);
    assert(s.subrange(pos, pos + 1)[0] == s[pos]);
    lemma_chop(s, pos + 1, el, seq![']']);
    assert(s.subrange(pos + 1 + el.len(), pos + 1 + el.len() + 1)[0] == s[pos + 1 + el.len()]);
}

/// True when the document form of a dated-item collection stands at `pos`.
pub open spec fn todo_coll_at(
    s: Seq<char>,
    pos: int,
    items: Seq<crate::sync::ItemModel<crate::item::TodoValue>>,
    server: bool,
) -> bool {
    &&& 0 <= pos
    &&& pos + emit_todo_coll(items, server).len() <= s.len()
    &&& s.subrange(pos, pos + emit_todo_coll(items, server).len() as int) == emit_todo_coll(
        items,
        server,
    )
}

/// True when the document form of a recurring-item collection stands at
/// `pos`.
pub open spec fn task_coll_at(
    s: Seq<char>,
    pos: int,
    items: Seq<crate::sync::ItemModel<crate::item::TaskValue>>,
    server: bool,
) -> bool {
    &&& 0 <= pos
    &&& pos + emit_task_coll(items, server).len() <= s.len()
    &&& s.subrange(pos, pos + emit_task_coll(items, server).len() as int) == emit_task_coll(
        items,
        server,
    )
}

/// Under a canonical dated-item collection at `pos`, each piece stands at its
/// own offset.
proof fn lemma_todo_coll_shape(
    s: Seq<char>,
    pos: int,
    items: Seq<crate::sync::ItemModel<crate::item::TodoValue>>,
    server: bool,
)
    requires
        todo_coll_at(s, pos, items, server),
    ensures
        ({
            let p1 = pos + ("{\"items\":[")@.len();
            let p2 = p1 + emit_list(items, todo_f()).len();
            let p3 = p2 + ("],\"server\":")@.len();
            let p4 = p3 + emit_bool(server).len();
            let p5 = p4 + ("}")@.len();
            &&& s.subrange(pos, p1) == ("{\"items\":[")@
            &&& list_at(s, p1, items, todo_f())
            &&& s.subrange(p2, p3) == ("],\"server\":")@
            &&& p3 + emit_bool(server).len() <= s.len()
            &&& s.subrange(p3, p4) == emit_bool(server)
            &&& s.subrange(p4, p5) == ("}")@
            &&& p5 == pos + emit_todo_coll(items, server).len()
        }),
{
    let l1 = ("{\"items\":[")@;
    let el = emit_list(items, todo_f());
    let l2 = ("],\"server\":")@;
    let eb = emit_bool(server);
    let l3 = ("}")@;
    assert(emit_list(
        items,
        |im: crate::sync::ItemModel<crate::item::TodoValue>| emit_todo(im),
    ) == el);
    lemma_chop(s, pos, l1, el + (l2 + (eb + l3)));
    let p1 = pos + l1.len();
    lemma_chop(s, p1, el, l2 + (eb + l3));
    let p2 = p1 + el.len();
    lemma_chop(s, p2, l2, eb + l3);
    let p3 = p2 + l2.len();
    lemma_chop(s, p3, eb, l3);
    reveal_strlit("],\"server\":");
    assert(s.subrange(p2, p3)[0] == s[p2]);
}

/// Under a canonical recurring-item collection at `pos`, each piece stands at
/// its own offset.
proof fn lemma_task_coll_shape(
    s: Seq<char>,
    pos: int,
    items: Seq<crate::sync::ItemModel<crate::item::TaskValue>>,
    server: bool,
)
    requires
        task_coll_at(s, pos, items, server),
    ensures
        ({
            let p1 = pos + ("{\"items\":[")@.len();
            let p2 = p1 + emit_list(items, task_f()).len();
            let p3 = p2 + ("],\"server\":")@.len();
            let p4 = p3 + emit_bool(server).len();
            let p5 = p4 + ("}")@.len();
            &&& s.subrange(pos, p1) == ("{\"items\":[")@
            &&& list_at(s, p1, items, task_f())
            &&& s.subrange(p2, p3) == ("],\"server\":")@
            &&& p3 + emit_bool(server).len() <= s.len()
            &&& s.subrange(p3, p4) == emit_bool(server)
            &&& s.subrange(p4, p5) == ("}")@
            &&& p5 == pos + emit_task_coll(items, server).len()
        }),
{
    let l1 = ("{\"items\":[")@;
    let el = emit_list(items, task_f());
    let l2 = ("],\"server\":")@;
    let eb = emit_bool(server);
    let l3 = ("}")@;
    assert(emit_list(
        items,
        |im: crate::sync::ItemModel<crate::item::TaskValue>| emit_task(im),
    ) == el);
    lemma_chop(s, pos, l1, el + (l2 + (eb + l3)));
    let p1 = pos + l1.len();
    lemma_chop(s, p1, el, l2 + (eb + l3));
    let p2 = p1 + el.len();
    lemma_chop(s, p2, l2, eb + l3);
    let p3 = p2 + l2.len();
    lemma_chop(s, p3, eb, l3);
    reveal_strlit("],\"server\":");
    assert(s.subrange(p2, p3)[0] == s[p2]);
}

/// Reads the document form of a dated-item collection at `pos`.
#[verifier::rlimit(100)]
fn parse_todo_coll(s: &[char], pos: usize) -> (r: Result<
    (Vec<crate::item::Todo>, bool, usize),
    crate::Error,
>)
    ensures
        forall|items: Seq<crate::sync::ItemModel<crate::item::TodoValue>>, server: bool|
            #![trigger todo_coll_at(s@, pos as int, items, server)]
            todo_coll_at(s@, pos as int, items, server) ==> (r matches Ok(p)
                && crate::sync::models(p.0@) == items && p.1 == server && p.2 == pos
                + emit_todo_coll(items, server).len()),
        r matches Ok(p) ==> todo_coll_at(s@, pos as int, crate::sync::models(p.0@), p.1) && p.2
            == pos + emit_todo_coll(crate::sync::models(p.0@), p.1).len(),
        r matches Ok(p) ==> pos < p.2 <= s@.len(),
{
    let ghost slen = s@.len();
    let n = s.len();
    proof {
        assert(slen <= usize::MAX);
    }
    let e1 = match expect_lit(s, pos, "{\"items\":[") {
        Ok(p) => p,
        Err(_) => {
            proof {
                assert forall|items: Seq<crate::sync::ItemModel<crate::item::TodoValue>>, server: bool| !todo_coll_at(s@, pos as int, items, server) by {
                    if todo_coll_at(s@, pos as int, items, server) {
                        lemma_todo_coll_shape(s@, pos as int, items, server);
                    }
                }
            }
            return Err(crate::Error::SerdeErr);
        },
    };
    let (items_v, e2) = match parse_todo_list(s, e1) {
        Ok(p) => p,
        Err(_) => {
            proof {
                assert forall|items: Seq<crate::sync::ItemModel<crate::item::TodoValue>>, server: bool| !todo_coll_at(s@, pos as int, items, server) by {
                    if todo_coll_at(s@, pos as int, items, server) {
                        lemma_todo_coll_shape(s@, pos as int, items, server);
                    }
                }
            }
            return Err(crate::Error::SerdeErr);
        },
    };
    let e3 = match expect_lit(s, e2, "],\"server\":") {
        Ok(p) => p,
        Err(_) => {
            proof {
                assert forall|items: Seq<crate::sync::ItemModel<crate::item::TodoValue>>, server: bool| !todo_coll_at(s@, pos as int, items, server) by {
                    if todo_coll_at(s@, pos as int, items, server) {
                        lemma_todo_coll_shape(s@, pos as int, items, server);
                    }
                }
            }
            return Err(crate::Error::SerdeErr);
        },
    };
    let (server_v, e4) = match parse_bool(s, e3) {
        Ok(p) => p,
        Err(_) => {
            proof {
                assert forall|items: Seq<crate::sync::ItemModel<crate::item::TodoValue>>, server: bool| !todo_coll_at(s@, pos as int, items, server) by {
                    if todo_coll_at(s@, pos as int, items, server) {
                        lemma_todo_coll_shape(s@, pos as int, items, server);
                    }
                }
            }
            return Err(crate::Error::SerdeErr);
        },
    };
    let e5 = match expect_lit(s, e4, "}") {
        Ok(p) => p,
        Err(_) => {
            proof {
                assert forall|items: Seq<crate::sync::ItemModel<crate::item::TodoValue>>, server: bool| !todo_coll_at(s@, pos as int, items, server) by {
                    if todo_coll_at(s@, pos as int, items, server) {
                        lemma_todo_coll_shape(s@, pos as int, items, server);
                    }
                }
            }
            return Err(crate::Error::SerdeErr);
        },
    };
    proof {
        assert forall|items: Seq<crate::sync::ItemModel<crate::item::TodoValue>>, server: bool|
            todo_coll_at(s@, pos as int, items, server) implies crate::sync::models(items_v@)
            == items && server_v == server && e5 == pos + emit_todo_coll(items, server).len() by {
            lemma_todo_coll_shape(s@, pos as int, items, server);
        }
        let iv = crate::sync::models(items_v@);
        assert(emit_list(
            iv,
            |im: crate::sync::ItemModel<crate::item::TodoValue>| emit_todo(im),
        ) == emit_list(iv, todo_f()));
        let g5 = ("}")@;
        let g4 = emit_bool(server_v) + g5;
        lemma_join(s@, e3 as int, emit_bool(server_v), g5);
        let g3 = ("],\"server\":")@ + g4;
        lemma_join(s@, e2 as int, ("],\"server\":")@, g4);
        let g2 = emit_list(iv, todo_f()) + g3;
        lemma_join(s@, e1 as int, emit_list(iv, todo_f()), g3);
        let g1 = ("{\"items\":[")@ + g2;
        lemma_join(s@, pos as int, ("{\"items\":[")@, g2);
        assert(g1 == emit_todo_coll(iv, server_v));
        assert(todo_coll_at(s@, pos as int, iv, server_v));
    }
    Ok((items_v, server_v, e5))
}

/// Reads the document form of a recurring-item collection at `pos`.
#[verifier::rlimit(100)]
fn parse_task_coll(s: &[char], pos: usize) -> (r: Result<
    (Vec<crate::item::Task>, bool, usize),
    crate::Error,
>)
    ensures
        forall|items: Seq<crate::sync::ItemModel<crate::item::TaskValue>>, server: bool|
            #![trigger task_coll_at(s@, pos as int, items, server)]
            task_coll_at(s@, pos as int, items, server) ==> (r matches Ok(p)
                && crate::sync::models(p.0@) == items && p.1 == server && p.2 == pos
                + emit_task_coll(items, server).len()),
        r matches Ok(p) ==> task_coll_at(s@, pos as int, crate::sync::models(p.0@), p.1) && p.2
            == pos + emit_task_coll(crate::sync::models(p.0@), p.1).len(),
        r matches Ok(p) ==> pos < p.2 <= s@.len(),
{
    let ghost slen = s@.len();
    let n = s.len();
    proof {
        assert(slen <= usize::MAX);
    }
    let e1 = match expect_lit(s, pos, "{\"items\":[") {
        Ok(p) => p,
        Err(_) => {
            proof {
                assert forall|items: Seq<crate::sync::ItemModel<crate::item::TaskValue>>, server: bool| !task_coll_at(s@, pos as int, items, server) by {
                    if task_coll_at(s@, pos as int, items, server) {
                        lemma_task_coll_shape(s@, pos as int, items, server);
                    }
                }
            }
            return Err(crate::Error::SerdeErr);
        },
    };
    let (items_v, e2) = match parse_task_list(s, e1) {
        Ok(p) => p,
        Err(_) => {
            proof {
                assert forall|items: Seq<crate::sync::ItemModel<crate::item::TaskValue>>, server: bool| !task_coll_at(s@, pos as int, items, server) by {
                    if task_coll_at(s@, pos as int, items, server) {
                        lemma_task_coll_shape(s@, pos as int, items, server);
                    }
                }
            }
            return Err(crate::Error::SerdeErr);
        },
    };
    let e3 = match expect_lit(s, e2, "],\"server\":") {
        Ok(p) => p,
        Err(_) => {
            proof {
                assert forall|items: Seq<crate::sync::ItemModel<crate::item::TaskValue>>, server: bool| !task_coll_at(s@, pos as int, items, server) by {
                    if task_coll_at(s@, pos as int, items, server) {
                        lemma_task_coll_shape(s@, pos as int, items, server);
                    }
                }
            }
            return Err(crate::Error::SerdeErr);
        },
    };
    let (server_v, e4) = match parse_bool(s, e3) {
        Ok(p) => p,
        Err(_) => {
            proof {
                assert forall|items: Seq<crate::sync::ItemModel<crate::item::TaskValue>>, server: bool| !task_coll_at(s@, pos as int, items, server) by {
                    if task_coll_at(s@, pos as int, items, server) {
                        lemma_task_coll_shape(s@, pos as int, items, server);
                    }
                }
            }
            return Err(crate::Error::SerdeErr);
        },
    };
    let e5 = match expect_lit(s, e4, "}") {
        Ok(p) => p,
        Err(_) => {
            proof {
                assert forall|items: Seq<crate::sync::ItemModel<crate::item::TaskValue>>, server: bool| !task_coll_at(s@, pos as int, items, server) by {
                    if task_coll_at(s@, pos as int, items, server) {
                        lemma_task_coll_shape(s@, pos as int, items, server);
                    }
                }
            }
            return Err(crate::Error::SerdeErr);
        },
    };
    proof {
        assert forall|items: Seq<crate::sync::ItemModel<crate::item::TaskValue>>, server: bool|
            task_coll_at(s@, pos as int, items, server) implies crate::sync::models(items_v@)
            == items && server_v == server && e5 == pos + emit_task_coll(items, server).len() by {
            lemma_task_coll_shape(s@, pos as int, items, server);
        }
        let iv = crate::sync::models(items_v@);
        assert(emit_list(
            iv,
            |im: crate::sync::ItemModel<crate::item::TaskValue>| emit_task(im),
        ) == emit_list(iv, task_f()));
        let g5 = ("}")@;
        let g4 = emit_bool(server_v) + g5;
        lemma_join(s@, e3 as int, emit_bool(server_v), g5);
        let g3 = ("],\"server\":")@ + g4;
        lemma_join(s@, e2 as int, ("],\"server\":")@, g4);
        let g2 = emit_list(iv, task_f()) + g3;
        lemma_join(s@, e1 as int, emit_list(iv, task_f()), g3);
        let g1 = ("{\"items\":[")@ + g2;
        lemma_join(s@, pos as int, ("{\"items\":[")@, g2);
        assert(g1 == emit_task_coll(iv, server_v));
        assert(task_coll_at(s@, pos as int, iv, server_v));
    }
    Ok((items_v, server_v, e5))
}

/// True when the whole canonical document of `d` stands at the start of `s`.
pub open spec fn doc_at(s: Seq<char>, d: TdDoc) -> bool {
    &&& emit_doc(d).len() <= s.len()
    &&& s.subrange(0, emit_doc(d).len() as int) == emit_doc(d)
}

/// Under a canonical document at the start of `s`, each piece stands at its
/// own offset.
proof fn lemma_doc_shape(s: Seq<char>, d: TdDoc)
    requires
        doc_at(s, d),
    ensures
        ({
            let p1 = ("{\"todos\":")@.len() as int;
            let p2 = p1 + emit_todo_coll(d.todos, d.todos_server).len();
            let p3 = p2 + (",\"tasks\":")@.len();
            let p4 = p3 + emit_task_coll(d.tasks, d.tasks_server).len();
            let p5 = p4 + (",\"server\":")@.len();
            let p6 = p5 + emit_bool(d.server).len();
            let p7 = p6 + ("}")@.len();
            &&& s.subrange(0, p1) == ("{\"todos\":")@
            &&& todo_coll_at(s, p1, d.todos, d.todos_server)
            &&& s.subrange(p2, p3) == (",\"tasks\":")@
            &&& task_coll_at(s, p3, d.tasks, d.tasks_server)
            &&& s.subrange(p4, p5) == (",\"server\":")@
            &&& p5 + emit_bool(d.server).len() <= s.len()
            &&& s.subrange(p5, p6) == emit_bool(d.server)
            &&& s.subrange(p6, p7) == ("}")@
            &&& p7 == emit_doc(d).len()
        }),
{
    let l1 = ("{\"todos\":")@;
    let c1 = emit_todo_coll(d.todos, d.todos_server);
    let l2 = (",\"tasks\":")@;
    let c2 = emit_task_coll(d.tasks, d.tasks_server);
    let l3 = (",\"server\":")@;
    let eb = emit_bool(d.server);
    let l4 = ("}")@;
    lemma_chop(s, 0, l1, c1 + (l2 + (c2 + (l3 + (eb + l4)))));
    let p1 = l1.len() as int;
    lemma_chop(s, p1, c1, l2 + (c2 + (l3 + (eb + l4))));
    let p2 = p1 + c1.len();
    lemma_chop(s, p2, l2, c2 + (l3 + (eb + l4)));
    let p3 = p2 + l2.len();
    lemma_chop(s, p3, c2, l3 + (eb + l4));
    let p4 = p3 + c2.len();
    lemma_chop(s, p4, l3, eb + l4);
    let p5 = p4 + l3.len();
    lemma_chop(s, p5, eb, l4);
}

/// Seven adjacent windows holding a document's pieces join into the whole
/// document form.
proof fn lemma_join_doc(
    s: Seq<char>,
    todos: Seq<crate::sync::ItemModel<crate::item::TodoValue>>,
    ts: bool,
    tasks: Seq<crate::sync::ItemModel<crate::item::TaskValue>>,
    ks: bool,
    sv: bool,
    e1: int,
    e2: int,
    e3: int,
    e4: int,
    e5: int,
    e6: int,
    e7: int,
)
    requires
        e7 <= s.len(),
        e1 == ("{\"todos\":")@.len(),
        s.subrange(0, e1) == ("{\"todos\":")@,
        e2 == e1 + emit_todo_coll(todos, ts).len(),
        s.subrange(e1, e2) == emit_todo_coll(todos, ts),
        e3 == e2 + (",\"tasks\":")@.len(),
        s.subrange(e2, e3) == (",\"tasks\":")@,
        e4 == e3 + emit_task_coll(tasks, ks).len(),
        s.subrange(e3, e4) == emit_task_coll(tasks, ks),
        e5 == e4 + (",\"server\":")@.len(),
        s.subrange(e4, e5) == (",\"server\":")@,
        e6 == e5 + emit_bool(sv).len(),
        s.subrange(e5, e6) == emit_bool(sv),
        e7 == e6 + ("}")@.len(),
        s.subrange(e6, e7) == ("}")@,
    ensures
        ({
            let d = TdDoc { todos, todos_server: ts, tasks, tasks_server: ks, server: sv };
            &&& s.subrange(0, e7) == emit_doc(d)
            &&& e7 == emit_doc(d).len()
        }),
{
    let g7 = ("}")@;
    let g6 = emit_bool(sv) + g7;
    lemma_join(s, e5, emit_bool(sv), g7);
    let g5 = (",\"server\":")@ + g6;
    lemma_join(s, e4, (",\"server\":")@, g6);
    let g4 = emit_task_coll(tasks, ks) + g5;
    lemma_join(s, e3, emit_task_coll(tasks, ks), g5);
    let g3 = (",\"tasks\":")@ + g4;
    lemma_join(s, e2, (",\"tasks\":")@, g4);
    let g2 = emit_todo_coll(todos, ts) + g3;
    lemma_join(s, e1, emit_todo_coll(todos, ts), g3);
    let g1 = ("{\"todos\":")@ + g2;
    lemma_join(s, 0, ("{\"todos\":")@, g2);
}

/// Reads the first half of a canonical document at the start of `s`: both
/// item collections, up to where the replica's own role flag begins.
#[verifier::rlimit(100)]
#[verifier::spinoff_prover]
fn parse_doc_prefix(s: &[char]) -> (r: Result<
    (Vec<crate::item::Todo>, bool, Vec<crate::item::Task>, bool, usize),
    crate::Error,
>)
    ensures
        forall|d: TdDoc|
            #![trigger doc_at(s@, d)]
            doc_at(s@, d) ==> (r matches Ok(p) && {
                &&& crate::sync::models(p.0@) == d.todos
                &&& p.1 == d.todos_server
                &&& crate::sync::models(p.2@) == d.tasks
                &&& p.3 == d.tasks_server
                &&& p.4 == ("{\"todos\":")@.len() + emit_todo_coll(
                    d.todos,
                    d.todos_server,
                ).len() + (",\"tasks\":")@.len() + emit_task_coll(d.tasks, d.tasks_server).len()
            }),
        r matches Ok(p) ==> ({
            let e1 = ("{\"todos\":")@.len() as int;
            let e2 = e1 + emit_todo_coll(crate::sync::models(p.0@), p.1).len();
            let e3 = e2 + (",\"tasks\":")@.len();
            let e4 = e3 + emit_task_coll(crate::sync::models(p.2@), p.3).len();
            &&& p.4 == e4
            &&& e4 <= s@.len()
            &&& s@.subrange(0, e1) == ("{\"todos\":")@
            &&& todo_coll_at(s@, e1, crate::sync::models(p.0@), p.1)
            &&& s@.subrange(e2, e3) == (",\"tasks\":")@
            &&& task_coll_at(s@, e3, crate::sync::models(p.2@), p.3)
        }),
{
    let ghost slen = s@.len();
    let n = s.len();
    proof {
        assert(slen <= usize::MAX);
    }
    let e1 = match expect_lit(s, 0, "{\"todos\":") {
        Ok(p) => p,
        Err(_) => {
            proof {
                assert forall|d: TdDoc| !doc_at(s@, d) by {
                    if doc_at(s@, d) {
                        lemma_doc_shape(s@, d);
                    }
                }
            }
            return Err(crate::Error::SerdeErr);
        },
    };
    let (todos_v, ts, e2) = match parse_todo_coll(s, e1) {
        Ok(p) => p,
        Err(_) => {
            proof {
                assert forall|d: TdDoc| !doc_at(s@, d) by {
                    if doc_at(s@, d) {
                        lemma_doc_shape(s@, d);
                    }
                }
            }
            return Err(crate::Error::SerdeErr);
        },
    };
    let e3 = match expect_lit(s, e2, ",\"tasks\":") {
        Ok(p) => p,
        Err(_) => {
            proof {
                assert forall|d: TdDoc| !doc_at(s@, d) by {
                    if doc_at(s@, d) {
                        lemma_doc_shape(s@, d);
                    }
                }
            }
            return Err(crate::Error::SerdeErr);
        },
    };
    let (tasks_v, ks, e4) = match parse_task_coll(s, e3) {
        Ok(p) => p,
        Err(_) => {
            proof {
                assert forall|d: TdDoc| !doc_at(s@, d) by {
                    if doc_at(s@, d) {
                        lemma_doc_shape(s@, d);
                    }
                }
            }
            return Err(crate::Error::SerdeErr);
        },
    };
    proof {
        assert forall|d: TdDoc|
            doc_at(s@, d) implies crate::sync::models(todos_v@) == d.todos && ts
            == d.todos_server && crate::sync::models(tasks_v@) == d.tasks && ks
            == d.tasks_server && e4 == ("{\"todos\":")@.len() + emit_todo_coll(
            d.todos,
            d.todos_server,
        ).len() + (",\"tasks\":")@.len() + emit_task_coll(d.tasks, d.tasks_server).len() by {
            lemma_doc_shape(s@, d);
        }
    }
    Ok((todos_v, ts, tasks_v, ks, e4))
}

/// Reads a whole canonical document at the start of `s`: the replica it
/// serializes and the position after it.
#[verifier::rlimit(100)]
#[verifier::spinoff_prover]
fn parse_doc(s: &[char]) -> (r: Result<(crate::tdlist::TdList, usize), crate::Error>)
    ensures
        forall|d: TdDoc|
            #![trigger doc_at(s@, d)]
            doc_at(s@, d) ==> (r matches Ok(p) && doc_of(p.0) == d && p.1 == emit_doc(d).len()),
        r matches Ok(p) ==> {
            &&& p.1 <= s@.len()
            &&& s@.subrange(0, p.1 as int) == emit_doc(doc_of(p.0))
            &&& p.1 == emit_doc(doc_of(p.0)).len()
        },
{
    let ghost slen = s@.len();
    let n = s.len();
    proof {
        assert(slen <= usize::MAX);
    }
    let (todos_v, ts, tasks_v, ks, e4) = match parse_doc_prefix(s) {
        Ok(p) => p,
        Err(_) => {
            proof {
                assert forall|d: TdDoc| !doc_at(s@, d) by {}
            }
            return Err(crate::Error::SerdeErr);
        },
    };
    let e5 = match expect_lit(s, e4, ",\"server\":") {
        Ok(p) => p,
        Err(_) => {
            proof {
                assert forall|d: TdDoc| !doc_at(s@, d) by {
                    if doc_at(s@, d) {
                        lemma_doc_shape(s@, d);
                    }
                }
            }
            return Err(crate::Error::SerdeErr);
        },
    };
    let (sv, e6) = match parse_bool(s, e5) {
        Ok(p) => p,
        Err(_) => {
            proof {
                assert forall|d: TdDoc| !doc_at(s@, d) by {
                    if doc_at(s@, d) {
                        lemma_doc_shape(s@, d);
                    }
                }
            }
            return Err(crate::Error::SerdeErr);
        },
    };
    let e7 = match expect_lit(s, e6, "}") {
        Ok(p) => p,
        Err(_) => {
            proof {
                assert forall|d: TdDoc| !doc_at(s@, d) by {
                    if doc_at(s@, d) {
                        lemma_doc_shape(s@, d);
                    }
                }
            }
            return Err(crate::Error::SerdeErr);
        },
    };
    let l = crate::tdlist::TdList {
        todos: crate::sync::SyncList { items: todos_v, server: ts },
        tasks: crate::sync::SyncList { items: tasks_v, server: ks },
        server: sv,
    };
    proof {
        assert forall|d: TdDoc| doc_at(s@, d) implies doc_of(l) == d && e7 == emit_doc(
            d,
        ).len() by {
            lemma_doc_shape(s@, d);
        }
        lemma_join_doc(
            s@,
            crate::sync::models(todos_v@),
            ts,
            crate::sync::models(tasks_v@),
            ks,
            sv,
            ("{\"todos\":")@.len() as int,
            ("{\"todos\":")@.len() as int + emit_todo_coll(
                crate::sync::models(todos_v@),
                ts,
            ).len() as int,
            e4 as int - emit_task_coll(crate::sync::models(tasks_v@), ks).len() as int,
            e4 as int,
            e5 as int,
            e6 as int,
            e7 as int,
        );
        assert(doc_of(l) == (TdDoc {
            todos: crate::sync::models(todos_v@),
            todos_server: ts,
            tasks: crate::sync::models(tasks_v@),
            tasks_server: ks,
            server: sv,
        }));
    }
    Ok((l, e7))
}

impl crate::tdlist::TdList {
    /// Parses a replica from its canonical JSON document: the exact shape
    /// `to_json` writes. Succeeds on exactly the canonical documents, giving
    /// back the replica whose document the input is; everything else gives
    /// `SerdeErr`.
    pub fn new_from_json(json: &str) -> (r: Result<crate::tdlist::TdList, crate::Error>)
        ensures
            forall|d: TdDoc|
                #![trigger emit_doc(d)]
                json@ == emit_doc(d) ==> (r matches Ok(l) && doc_of(l) == d),
            r matches Ok(l) ==> json@ == emit_doc(doc_of(l)),
            r is Err ==> r == Err::<crate::tdlist::TdList, crate::Error>(crate::Error::SerdeErr),
    {
        let cs = str_chars(json);
        let n = cs.len();
        proof {
            assert forall|d: TdDoc| json@ == emit_doc(d) implies doc_at(cs@, d) by {
                assert(cs@.subrange(0, emit_doc(d).len() as int) =~= cs@);
            }
        }
        match parse_doc(cs.as_slice()) {
            Ok((l, e)) => {
                if e == n {
                    proof {
                        assert(cs@.subrange(0, e as int) =~= cs@);
                    }
                    Ok(l)
                } else {
                    proof {
                        assert forall|d: TdDoc| json@ != emit_doc(d) by {}
                    }
                    Err(crate::Error::SerdeErr)
                }
            },
            Err(_) => {
                proof {
                    assert forall|d: TdDoc| json@ != emit_doc(d) by {}
                }
                Err(crate::Error::SerdeErr)
            },
        }
    }
}

} // verus!
