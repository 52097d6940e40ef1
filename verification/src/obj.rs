//! Loading models from OBJ-style text.
//!
//! The format is line oriented: a line whose first whitespace-separated
//! token is `v` defines a vertex from three decimal coordinates, one
//! whose first token is `f` defines a triangular face from three
//! 1-based indices into the vertices seen so far. Blank lines and lines
//! with any other first token are ignored. Malformed numbers are a
//! parse error; face indices outside the vertices seen so far are an
//! index error. Coordinates are read into 16.16 fixed point, keeping
//! the first twelve fractional digits and truncating toward zero; a
//! coordinate beyond the supported range is a parse error.

use crate::fixed::Vec3;
use crate::model::face_ok;
use crate::model::Face;
use crate::model::Model;
use crate::model::Vertex;
use vstd::prelude::*;

verus! {

/// A whitespace byte inside a line: space, tab or carriage return.
pub open spec fn is_ws(c: u8) -> bool {
    c == 32 || c == 9 || c == 13
}

/// An ASCII digit.
pub open spec fn is_digit(c: u8) -> bool {
    48 <= c <= 57
}

/// Every byte of `s` is a digit (an empty `s` passes).
pub open spec fn all_digits(s: Seq<u8>) -> bool {
    forall|i: int| 0 <= i < s.len() ==> is_digit(#[trigger] s[i])
}

/// The value of a digit string read left to right.
pub open spec fn digits_val(s: Seq<u8>) -> int
    decreases s.len(),
{
    if s.len() == 0 {
        0
    } else {
        digits_val(s.drop_last()) * 10 + (s.last() - 48)
    }
}

/// Ten to the `k`.
pub open spec fn pow10(k: int) -> int
    decreases k,
{
    if k <= 0 {
        1
    } else {
        10 * pow10(k - 1)
    }
}

/// The index of the first `.` in `s`, or `s.len()` if there is none.
pub open spec fn find_dot(s: Seq<u8>) -> int
    decreases s.len(),
{
    if s.len() == 0 {
        0
    } else if s[0] == 46 {
        0
    } else {
        1 + find_dot(s.drop_first())
    }
}

/// The fixed-point value of a decimal token, or nothing when the
/// token is not a plain decimal or is out of the coordinate range.
/// The grammar is an optional sign, digits, and optionally a `.` and
/// more digits, with at least one digit in all; of the fractional
/// digits the first twelve carry value. The result truncates toward
/// zero and must stay within the 4096-unit coordinate range.
pub open spec fn dec_parse(t: Seq<u8>) -> Option<int> {
    if t.len() == 0 {
        Option::None
    } else {
        let neg = t[0] == 45;
        let u = if t[0] == 45 || t[0] == 43 {
            t.drop_first()
        } else {
            t
        };
        let dp = find_dot(u);
        let ip = u.take(dp);
        let fp = if dp < u.len() {
            u.skip(dp + 1)
        } else {
            Seq::empty()
        };
        if !(all_digits(ip) && all_digits(fp) && ip.len() + fp.len() > 0) {
            Option::None
        } else {
            let kept = if fp.len() < 12 {
                fp.len() as int
            } else {
                12
            };
            let mag = digits_val(ip) * 65536 + (digits_val(fp.take(kept)) * 65536) / pow10(kept);
            if mag > 0x1000_0000 {
                Option::None
            } else if neg {
                Option::Some(-mag)
            } else {
                Option::Some(mag)
            }
        }
    }
}

/// The value of an index token, or nothing when the token is not a
/// plain unsigned integer (an optional leading `+` is accepted) or is
/// absurdly large for a vertex count.
pub open spec fn idx_parse(t: Seq<u8>) -> Option<int> {
    if t.len() == 0 {
        Option::None
    } else {
        let u = if t[0] == 43 {
            t.drop_first()
        } else {
            t
        };
        if !(all_digits(u) && u.len() > 0) {
            Option::None
        } else if digits_val(u) > 0x1000_0000 {
            Option::None
        } else {
            Option::Some(digits_val(u))
        }
    }
}

/// Appending digits never shrinks the value: once a prefix exceeds a
/// nonnegative bound, the whole string does.
proof fn lemma_digits_val_prefix_exceeds(s: Seq<u8>, i: int, bound: int)
    requires
        all_digits(s),
        0 <= i <= s.len(),
        0 <= bound,
        digits_val(s.take(i)) > bound,
    ensures
        digits_val(s) > bound,
    decreases s.len() - i,
{
    lemma_digits_val_nonneg(s.take(i));
    if i == s.len() {
        assert(s.take(i) =~= s);
    } else {
        assert(s.take(i + 1).drop_last() =~= s.take(i));
        assert(digits_val(s.take(i + 1)) == digits_val(s.take(i)) * 10 + (s[i] - 48));
        assert(digits_val(s.take(i)) * 10 >= digits_val(s.take(i))) by (nonlinear_arith)
            requires
                digits_val(s.take(i)) >= 0,
        ;
        lemma_digits_val_prefix_exceeds(s, i + 1, bound);
    }
}

/// The value of a digit string is never negative.
proof fn lemma_digits_val_nonneg(s: Seq<u8>)
    requires
        all_digits(s),
    ensures
        digits_val(s) >= 0,
    decreases s.len(),
{
    if s.len() > 0 {
        assert(all_digits(s.drop_last()));
        assert(is_digit(s.last()));
        lemma_digits_val_nonneg(s.drop_last());
        assert(digits_val(s.drop_last()) * 10 >= 0) by (nonlinear_arith)
            requires
                digits_val(s.drop_last()) >= 0,
        ;
    }
}

/// Reads the digits of `s` from position `from` on, capping the
/// accumulated value at `cap` so that oversized numbers are detected
/// without unbounded arithmetic. Returns the capped value, which
/// equals the true value whenever that value is below the cap.
fn scan_digits_capped(s: &[u8], from: usize, to: usize, cap: i64) -> (acc: i64)
    requires
        from <= to <= s@.len(),
        all_digits(s@.subrange(from as int, to as int)),
        0 < cap <= 0x2000_0000,
    ensures
        0 <= acc <= cap,
        acc < cap ==> acc == digits_val(s@.subrange(from as int, to as int)),
        acc == cap ==> digits_val(s@.subrange(from as int, to as int)) >= cap,
{
    let ghost whole = s@.subrange(from as int, to as int);
    proof {
        lemma_digits_val_nonneg(whole);
    }
    let mut acc: i64 = 0;
    let mut i: usize = from;
    while i < to
        invariant
            from <= i <= to <= s@.len(),
            whole == s@.subrange(from as int, to as int),
            all_digits(whole),
            0 < cap <= 0x2000_0000,
            0 <= acc <= cap,
            acc < cap ==> acc == digits_val(whole.take(i - from)),
            acc == cap ==> digits_val(whole.take(i - from)) >= cap,
        decreases to - i,
    {
        let c = s[i];
        assert(whole[i - from] == c);
        assert(is_digit(c));
        let ghost pre = whole.take(i - from);
        assert(whole.take(i - from + 1).drop_last() =~= pre);
        assert(whole.take(i - from + 1).last() == c);
        proof {
            lemma_digits_val_nonneg(pre);
            lemma_digits_val_nonneg(whole.take(i - from + 1));
        }
        if acc < cap {
            let next: i64 = acc * 10 + (c - 48) as i64;
            if next > cap {
                proof {
                    lemma_digits_val_prefix_exceeds(whole, i - from + 1, cap - 1);
                }
                acc = cap;
            } else {
                acc = next;
            }
        } else {
            proof {
                assert(digits_val(whole.take(i - from + 1)) == digits_val(pre) * 10 + (c - 48));
                assert(digits_val(pre) * 10 >= digits_val(pre)) by (nonlinear_arith)
                    requires
                        digits_val(pre) >= 0,
                ;
                lemma_digits_val_prefix_exceeds(whole, i - from + 1, cap - 1);
            }
        }
        i = i + 1;
    }
    assert(whole.take(to - from) =~= whole);
    acc
}

/// Whether every byte of `s` between `from` and `to` is a digit.
fn check_digits(s: &[u8], from: usize, to: usize) -> (ok: bool)
    requires
        from <= to <= s@.len(),
    ensures
        ok == all_digits(s@.subrange(from as int, to as int)),
{
    let ghost whole = s@.subrange(from as int, to as int);
    let mut i: usize = from;
    while i < to
        invariant
            from <= i <= to <= s@.len(),
            whole == s@.subrange(from as int, to as int),
            forall|j: int| 0 <= j < i - from ==> is_digit(#[trigger] whole[j]),
        decreases to - i,
    {
        let c = s[i];
        assert(whole[i - from] == c);
        if c < 48 || c > 57 {
            return false;
        }
        i = i + 1;
    }
    true
}

/// `find_dot` is what a left-to-right scan finds: if nothing before
/// `m` is a dot and `m` is the end or a dot, the first dot is at `m`.
proof fn lemma_find_dot_scan(u: Seq<u8>, m: int)
    requires
        0 <= m <= u.len(),
        forall|j: int| 0 <= j < m ==> u[j] != 46,
        m == u.len() || u[m] == 46,
    ensures
        find_dot(u) == m,
    decreases m,
{
    if u.len() == 0 {
    } else if m == 0 {
    } else {
        assert(u[0] != 46);
        let tail = u.drop_first();
        assert(forall|j: int| 0 <= j < m - 1 ==> #[trigger] tail[j] == u[j + 1]);
        lemma_find_dot_scan(tail, m - 1);
    }
}

/// A digit string's value is below ten to its length.
proof fn lemma_digits_val_bound(s: Seq<u8>)
    requires
        all_digits(s),
    ensures
        0 <= digits_val(s) < pow10(s.len() as int),
    decreases s.len(),
{
    if s.len() == 0 {
    } else {
        let pre = s.drop_last();
        assert(all_digits(pre));
        lemma_digits_val_bound(pre);
        assert(is_digit(s.last()));
        assert(digits_val(pre) * 10 + (s.last() - 48) < pow10(s.len() as int))
            by (nonlinear_arith)
            requires
                0 <= digits_val(pre) < pow10(s.len() - 1) && s.last() - 48 <= 9 && pow10(
                    s.len() as int,
                ) == 10 * pow10(s.len() - 1),
        ;
    }
}

/// Reads at most twelve digits exactly.
fn scan_digits_exact(s: &[u8], from: usize, to: usize) -> (acc: i64)
    requires
        from <= to <= s@.len(),
        to - from <= 12,
        all_digits(s@.subrange(from as int, to as int)),
    ensures
        acc == digits_val(s@.subrange(from as int, to as int)),
        0 <= acc < 1000000000000,
{
    let ghost whole = s@.subrange(from as int, to as int);
    proof {
        lemma_digits_val_bound(whole);
        lemma_pow10_le(whole.len() as int, 12);
    }
    let mut acc: i64 = 0;
    let mut i: usize = from;
    while i < to
        invariant
            from <= i <= to <= s@.len(),
            to - from <= 12,
            whole == s@.subrange(from as int, to as int),
            all_digits(whole),
            acc == digits_val(whole.take(i - from)),
            0 <= acc < 1000000000000,
        decreases to - i,
    {
        let c = s[i];
        assert(whole[i - from] == c);
        assert(is_digit(c));
        let ghost pre = whole.take(i - from);
        assert(whole.take(i - from + 1).drop_last() =~= pre);
        assert(whole.take(i - from + 1).last() == c);
        proof {
            assert(all_digits(whole.take(i - from + 1))) by {
                assert(forall|j: int|
                    0 <= j < i - from + 1 ==> #[trigger] whole.take(i - from + 1)[j] == whole[j]);
            }
            lemma_digits_val_bound(whole.take(i - from + 1));
            lemma_pow10_le(i - from + 1, 12);
        }
        acc = acc * 10 + (c - 48) as i64;
        i = i + 1;
    }
    assert(whole.take(to - from) =~= whole);
    acc
}

/// `pow10` is positive and grows with its argument.
proof fn lemma_pow10_mono(a: int, b: int)
    requires
        a <= b,
    ensures
        1 <= pow10(a) <= pow10(b),
    decreases b - a,
{
    if b <= 0 {
        lemma_pow10_pos(a);
        lemma_pow10_pos(b);
        assert(pow10(a) == 1);
    } else if a == b {
        lemma_pow10_pos(a);
    } else {
        lemma_pow10_mono(a, b - 1);
        assert(pow10(b) == 10 * pow10(b - 1));
    }
}

/// `pow10` is at least one.
proof fn lemma_pow10_pos(k: int)
    ensures
        pow10(k) >= 1,
    decreases k,
{
    if k > 0 {
        lemma_pow10_pos(k - 1);
    }
}

/// `pow10` grows with its argument, and stays within machine range up
/// to twelve.
proof fn lemma_pow10_le(a: int, b: int)
    requires
        a <= b <= 12,
    ensures
        pow10(a) <= pow10(b),
        1 <= pow10(a),
        pow10(b) <= 1000000000000,
{
    lemma_pow10_mono(a, b);
    lemma_pow10_mono(b, 12);
    assert(pow10(0) == 1);
    assert(pow10(1) == 10);
    assert(pow10(2) == 100);
    assert(pow10(3) == 1000);
    assert(pow10(4) == 10000);
    assert(pow10(5) == 100000);
    assert(pow10(6) == 1000000);
    assert(pow10(7) == 10000000);
    assert(pow10(8) == 100000000);
    assert(pow10(9) == 1000000000);
    assert(pow10(10) == 10000000000);
    assert(pow10(11) == 100000000000);
    assert(pow10(12) == 1000000000000);
}

/// Ten to the `k`, for small `k`.
fn pow10_exec(k: usize) -> (p: i64)
    requires
        k <= 12,
    ensures
        p == pow10(k as int),
        1 <= p <= 1000000000000,
{
    proof {
        lemma_pow10_le(k as int, 12);
        lemma_pow10_le(0, k as int);
    }
    let mut p: i64 = 1;
    let mut i: usize = 0;
    while i < k
        invariant
            0 <= i <= k <= 12,
            p == pow10(i as int),
            1 <= p <= 1000000000000,
        decreases k - i,
    {
        proof {
            lemma_pow10_le(i + 1, 12);
        }
        p = p * 10;
        i = i + 1;
    }
    p
}

/// Parses one decimal token into a fixed-point coordinate, exactly as
/// `dec_parse` reads it.
#[verifier::rlimit(60)]
pub fn parse_decimal(t: &[u8]) -> (r: Option<i64>)
    ensures
        (match dec_parse(t@) {
            Option::Some(v) => r == Option::Some(v as i64),
            Option::None => r == Option::<i64>::None,
        }),
{
    let n = t.len();
    if n == 0 {
        return Option::None;
    }
    let signed: bool = t[0] == 43 || t[0] == 45;
    let neg: bool = t[0] == 45;
    let start: usize = if signed {
        1
    } else {
        0
    };
    let ghost u = if signed {
        t@.drop_first()
    } else {
        t@
    };
    proof {
        assert(u =~= t@.subrange(start as int, n as int));
    }
    let mut dp: usize = start;
    while dp < n && t[dp] != 46
        invariant
            start <= dp <= n,
            n == t@.len(),
            u == t@.subrange(start as int, n as int),
            forall|j: int| start <= j < dp ==> t@[j] != 46,
        decreases n - dp,
    {
        dp = dp + 1;
    }
    proof {
        assert(forall|j: int| 0 <= j < dp - start ==> #[trigger] u[j] == t@[j + start]);
        lemma_find_dot_scan(u, dp - start);
    }
    let ip_ok = check_digits(t, start, dp);
    let fstart: usize = if dp < n {
        dp + 1
    } else {
        n
    };
    let fp_ok = check_digits(t, fstart, n);
    proof {
        assert(u.take(dp - start) =~= t@.subrange(start as int, dp as int));
        if dp < n {
            assert(u.skip(dp - start + 1) =~= t@.subrange(fstart as int, n as int));
        } else {
            assert(Seq::<u8>::empty() =~= t@.subrange(fstart as int, n as int));
        }
    }
    if !(ip_ok && fp_ok && (dp - start) + (n - fstart) > 0) {
        return Option::None;
    }
    let ipart = scan_digits_capped(t, start, dp, 4097);
    if ipart >= 4097 {
        proof {
            let ip = t@.subrange(start as int, dp as int);
            lemma_digits_val_nonneg(t@.subrange(fstart as int, n as int));
            let kept = if n - fstart < 12 {
                (n - fstart) as int
            } else {
                12int
            };
            let fpv = t@.subrange(fstart as int, n as int).take(kept);
            assert(all_digits(fpv)) by {
                assert(forall|j: int|
                    0 <= j < kept ==> #[trigger] fpv[j] == t@.subrange(
                        fstart as int,
                        n as int,
                    )[j]);
            }
            lemma_digits_val_nonneg(fpv);
            lemma_pow10_le(0, kept);
            assert(digits_val(fpv) * 65536 >= 0) by (nonlinear_arith)
                requires
                    digits_val(fpv) >= 0,
            ;
            vstd::arithmetic::div_mod::lemma_div_pos_is_pos(digits_val(fpv) * 65536, pow10(kept));
            assert(digits_val(ip) * 65536 >= 4097 * 65536) by (nonlinear_arith)
                requires
                    digits_val(ip) >= 4097,
            ;
        }
        return Option::None;
    }
    let fl: usize = n - fstart;
    let kept: usize = if fl < 12 {
        fl
    } else {
        12
    };
    proof {
        let fseq = t@.subrange(fstart as int, n as int);
        assert(fseq.take(kept as int) =~= t@.subrange(fstart as int, (fstart + kept) as int));
        assert(all_digits(t@.subrange(fstart as int, (fstart + kept) as int))) by {
            assert(forall|j: int|
                0 <= j < kept ==> #[trigger] t@.subrange(fstart as int, (fstart + kept) as int)[j]
                    == fseq[j]);
        }
    }
    let fval = scan_digits_exact(t, fstart, fstart + kept);
    let p = pow10_exec(kept);
    let fscaled: i64 = (((fval as u64) * 65536) / (p as u64)) as i64;
    proof {
        vstd::arithmetic::div_mod::lemma_div_pos_is_pos((fval as int) * 65536, p as int);
        vstd::arithmetic::div_mod::lemma_div_is_ordered(
            (fval as int) * 65536,
            1000000000000int * 65536,
            p as int,
        );
        vstd::arithmetic::div_mod::lemma_div_nonincreasing(1000000000000int * 65536, p as int);
        assert((fval as int) * 65536 <= 1000000000000int * 65536) by (nonlinear_arith)
            requires
                0 <= (fval as int) < 1000000000000,
        ;
    }
    let mag: i64 = ipart * 65536 + fscaled;
    if mag > 0x1000_0000 {
        return Option::None;
    }
    if neg {
        Option::Some(-mag)
    } else {
        Option::Some(mag)
    }
}

/// Parses one face-index token, exactly as `idx_parse` reads it.
pub fn parse_index(t: &[u8]) -> (r: Option<usize>)
    ensures
        (match idx_parse(t@) {
            Option::Some(v) => r == Option::Some(v as usize),
            Option::None => r == Option::<usize>::None,
        }),
{
    let n = t.len();
    if n == 0 {
        return Option::None;
    }
    let start: usize = if t[0] == 43 {
        1
    } else {
        0
    };
    let ghost u = if t[0] == 43 {
        t@.drop_first()
    } else {
        t@
    };
    proof {
        assert(u =~= t@.subrange(start as int, n as int));
    }
    let ok = check_digits(t, start, n);
    if !(ok && n - start > 0) {
        return Option::None;
    }
    let v = scan_digits_capped(t, start, n, 0x1000_0001);
    if v > 0x1000_0000 {
        return Option::None;
    }
    Option::Some(v as usize)
}

/// The index of the first newline in `s`, or `s.len()` if there is
/// none.
pub open spec fn find_nl(s: Seq<u8>) -> int
    decreases s.len(),
{
    if s.len() == 0 {
        0
    } else if s[0] == 10 {
        0
    } else {
        1 + find_nl(s.drop_first())
    }
}

/// The index of the first whitespace byte in `s`, or `s.len()` if
/// there is none.
pub open spec fn find_ws(s: Seq<u8>) -> int
    decreases s.len(),
{
    if s.len() == 0 {
        0
    } else if is_ws(s[0]) {
        0
    } else {
        1 + find_ws(s.drop_first())
    }
}

/// `find_nl` is what a left-to-right scan finds.
proof fn lemma_find_nl_scan(u: Seq<u8>, m: int)
    requires
        0 <= m <= u.len(),
        forall|j: int| 0 <= j < m ==> u[j] != 10,
        m == u.len() || u[m] == 10,
    ensures
        find_nl(u) == m,
    decreases m,
{
    if u.len() == 0 {
    } else if m == 0 {
    } else {
        assert(u[0] != 10);
        let tail = u.drop_first();
        assert(forall|j: int| 0 <= j < m - 1 ==> #[trigger] tail[j] == u[j + 1]);
        lemma_find_nl_scan(tail, m - 1);
    }
}

/// `find_ws` is what a left-to-right scan finds.
proof fn lemma_find_ws_scan(u: Seq<u8>, m: int)
    requires
        0 <= m <= u.len(),
        forall|j: int| 0 <= j < m ==> !is_ws(u[j]),
        m == u.len() || is_ws(u[m]),
    ensures
        find_ws(u) == m,
    decreases m,
{
    if u.len() == 0 {
    } else if m == 0 {
    } else {
        assert(!is_ws(u[0]));
        let tail = u.drop_first();
        assert(forall|j: int| 0 <= j < m - 1 ==> #[trigger] tail[j] == u[j + 1]);
        lemma_find_ws_scan(tail, m - 1);
    }
}

/// The lines of a byte text, split at newlines; the final piece is a
/// line too, so a text without newlines is one line.
pub open spec fn split_lines(d: Seq<u8>) -> Seq<Seq<u8>>
    decreases d.len(),
{
    let nl = find_nl(d);
    if 0 <= nl < d.len() {
        seq![d.take(nl)] + split_lines(d.skip(nl + 1))
    } else {
        seq![d]
    }
}

/// The whitespace-separated tokens of one line, in order.
pub open spec fn spec_tokens(l: Seq<u8>) -> Seq<Seq<u8>>
    decreases l.len(),
{
    if l.len() == 0 {
        Seq::empty()
    } else if is_ws(l[0]) {
        spec_tokens(l.drop_first())
    } else {
        let e = find_ws(l);
        if 1 <= e <= l.len() {
            seq![l.take(e)] + spec_tokens(l.skip(e))
        } else {
            seq![l]
        }
    }
}

/// A vector of byte vectors as a sequence of byte sequences.
pub open spec fn toks_view(s: Seq<Vec<u8>>) -> Seq<Seq<u8>> {
    s.map_values(|v: Vec<u8>| v@)
}

/// Splits a byte text into its lines.
fn take_lines(data: &[u8]) -> (lines: Vec<Vec<u8>>)
    ensures
        toks_view(lines@) == split_lines(data@),
{
    let n = data.len();
    let mut lines: Vec<Vec<u8>> = Vec::new();
    let mut i: usize = 0;
    proof {
        assert(data@.skip(0) =~= data@);
        assert(toks_view(lines@) =~= Seq::<Seq<u8>>::empty());
        assert(toks_view(lines@) + split_lines(data@) =~= split_lines(data@));
    }
    loop
        invariant_except_break
            0 <= i <= n,
            n == data@.len(),
            i > 0 ==> data@[i - 1] == 10,
            split_lines(data@) == toks_view(lines@) + split_lines(data@.skip(i as int)),
        ensures
            toks_view(lines@) == split_lines(data@),
        decreases n - i,
    {
        let ghost rest = data@.skip(i as int);
        let mut j: usize = i;
        while j < n && data[j] != 10
            invariant
                i <= j <= n,
                n == data@.len(),
                forall|q: int| i <= q < j ==> data@[q] != 10,
            decreases n - j,
        {
            j = j + 1;
        }
        proof {
            assert(forall|q: int| 0 <= q < j - i ==> #[trigger] rest[q] == data@[q + i]);
            lemma_find_nl_scan(rest, j - i);
        }
        let mut line: Vec<u8> = Vec::new();
        let mut q: usize = i;
        while q < j
            invariant
                i <= q <= j <= n,
                n == data@.len(),
                line@.len() == q - i,
                forall|t: int| 0 <= t < q - i ==> #[trigger] line@[t] == data@[t + i],
            decreases j - q,
        {
            line.push(data[q]);
            q = q + 1;
        }
        proof {
            assert(line@ =~= rest.take(j - i));
        }
        let ghost pre = toks_view(lines@);
        lines.push(line);
        proof {
            assert(toks_view(lines@) =~= pre + seq![rest.take(j - i)]);
        }
        if j == n {
            proof {
                assert(rest.take(j - i) =~= rest);
                assert(split_lines(rest) =~= seq![rest]);
                assert(toks_view(lines@) =~= pre + split_lines(rest));
            }
            break ;
        }
        proof {
            assert(data@.skip(j as int + 1) =~= rest.skip(j - i + 1));
            assert(split_lines(rest) =~= seq![rest.take(j - i)] + split_lines(rest.skip(j - i + 1)));
        }
        i = j + 1;
    }
    lines
}

/// Splits one line into its whitespace-separated tokens.
fn take_tokens(line: &[u8]) -> (toks: Vec<Vec<u8>>)
    ensures
        toks_view(toks@) == spec_tokens(line@),
{
    let n = line.len();
    let mut toks: Vec<Vec<u8>> = Vec::new();
    let mut i: usize = 0;
    proof {
        assert(line@.skip(0) =~= line@);
        assert(toks_view(toks@) =~= Seq::<Seq<u8>>::empty());
        assert(toks_view(toks@) + spec_tokens(line@) =~= spec_tokens(line@));
    }
    while i < n
        invariant
            0 <= i <= n,
            n == line@.len(),
            spec_tokens(line@) == toks_view(toks@) + spec_tokens(line@.skip(i as int)),
        decreases n - i,
    {
        let ghost rest = line@.skip(i as int);
        let c = line[i];
        assert(rest[0] == c);
        if c == 32 || c == 9 || c == 13 {
            proof {
                assert(spec_tokens(rest) =~= spec_tokens(rest.drop_first()));
                assert(rest.drop_first() =~= line@.skip(i as int + 1));
            }
            i = i + 1;
        } else {
            let mut j: usize = i;
            while j < n && line[j] != 32 && line[j] != 9 && line[j] != 13
                invariant
                    i <= j <= n,
                    n == line@.len(),
                    forall|q: int| i <= q < j ==> !is_ws(#[trigger] line@[q]),
                decreases n - j,
            {
                j = j + 1;
            }
            proof {
                assert(forall|q: int| 0 <= q < j - i ==> #[trigger] rest[q] == line@[q + i]);
                lemma_find_ws_scan(rest, j - i);
            }
            let mut tok: Vec<u8> = Vec::new();
            let mut q: usize = i;
            while q < j
                invariant
                    i <= q <= j <= n,
                    n == line@.len(),
                    tok@.len() == q - i,
                    forall|t: int| 0 <= t < q - i ==> #[trigger] tok@[t] == line@[t + i],
                decreases j - q,
            {
                tok.push(line[q]);
                q = q + 1;
            }
            proof {
                assert(tok@ =~= rest.take(j - i));
            }
            let ghost pre = toks_view(toks@);
            toks.push(tok);
            proof {
                assert(toks_view(toks@) =~= pre + seq![rest.take(j - i)]);
                assert(spec_tokens(rest) =~= seq![rest.take(j - i)] + spec_tokens(rest.skip(j - i)));
                assert(rest.skip(j - i) =~= line@.skip(j as int));
            }
            i = j;
        }
    }
    proof {
        assert(spec_tokens(line@.skip(n as int)) =~= Seq::<Seq<u8>>::empty());
    }
    toks
}

/// A failure to load a model: a malformed token, or a face index
/// outside the vertices seen so far. Lines are counted from zero.
#[derive(Clone, Copy, Debug, PartialEq, Eq, Structural)]
pub enum LoadError {
    Parse { line: usize },
    Index { line: usize },
}

/// One line folded into the buffers built so far: a `v` line appends
/// a vertex, an `f` line appends a face checked against the vertices
/// seen so far, anything else is ignored.
pub open spec fn line_step(l: Seq<u8>, lineno: int, vs: Seq<Vertex>, fs: Seq<Face>) -> Result<
    (Seq<Vertex>, Seq<Face>),
    LoadError,
> {
    let toks = spec_tokens(l);
    if toks.len() == 0 {
        Result::Ok((vs, fs))
    } else if toks[0] == seq![118u8] {
        if toks.len() < 4 {
            Result::Err(LoadError::Parse { line: lineno as usize })
        } else {
            match (dec_parse(toks[1]), dec_parse(toks[2]), dec_parse(toks[3])) {
                (Option::Some(x), Option::Some(y), Option::Some(z)) => Result::Ok(
                    (
                        vs.push(
                            Vertex {
                                position: Vec3 { x: x as i64, y: y as i64, z: z as i64 },
                            },
                        ),
                        fs,
                    ),
                ),
                _ => Result::Err(LoadError::Parse { line: lineno as usize }),
            }
        }
    } else if toks[0] == seq![102u8] {
        if toks.len() < 4 {
            Result::Err(LoadError::Parse { line: lineno as usize })
        } else {
            match (idx_parse(toks[1]), idx_parse(toks[2]), idx_parse(toks[3])) {
                (Option::Some(a), Option::Some(b), Option::Some(c)) => {
                    if 1 <= a <= vs.len() && 1 <= b <= vs.len() && 1 <= c <= vs.len() {
                        Result::Ok(
                            (
                                vs,
                                fs.push(
                                    Face { indexes: (a as usize, b as usize, c as usize) },
                                ),
                            ),
                        )
                    } else {
                        Result::Err(LoadError::Index { line: lineno as usize })
                    }
                },
                _ => Result::Err(LoadError::Parse { line: lineno as usize }),
            }
        }
    } else {
        Result::Ok((vs, fs))
    }
}

/// The first `k` lines folded in order, stopping at the first error.
pub open spec fn parse_upto(lines: Seq<Seq<u8>>, k: int) -> Result<
    (Seq<Vertex>, Seq<Face>),
    LoadError,
>
    decreases k,
{
    if k <= 0 {
        Result::Ok((Seq::empty(), Seq::empty()))
    } else {
        match parse_upto(lines, k - 1) {
            Result::Ok(pair) => line_step(lines[k - 1], k - 1, pair.0, pair.1),
            Result::Err(e) => Result::Err(e),
        }
    }
}

/// The whole text parsed into vertex and face buffers, or its first
/// error.
pub open spec fn obj_parse(d: Seq<u8>) -> Result<(Seq<Vertex>, Seq<Face>), LoadError> {
    parse_upto(split_lines(d), split_lines(d).len() as int)
}

/// A coordinate that `dec_parse` accepts lies within the coordinate
/// range.
proof fn lemma_dec_parse_range(t: Seq<u8>)
    ensures
        (match dec_parse(t) {
            Option::Some(v) => -0x1000_0000 <= v <= 0x1000_0000,
            Option::None => true,
        }),
{
    if t.len() > 0 {
        let u = if t[0] == 45 || t[0] == 43 {
            t.drop_first()
        } else {
            t
        };
        let dp = find_dot(u);
        let ip = u.take(dp);
        let fp = if dp < u.len() {
            u.skip(dp + 1)
        } else {
            Seq::empty()
        };
        if all_digits(ip) && all_digits(fp) && ip.len() + fp.len() > 0 {
            let kept = if fp.len() < 12 {
                fp.len() as int
            } else {
                12
            };
            lemma_digits_val_nonneg(ip);
            assert(all_digits(fp.take(kept))) by {
                assert(forall|j: int| 0 <= j < kept ==> #[trigger] fp.take(kept)[j] == fp[j]);
            }
            lemma_digits_val_nonneg(fp.take(kept));
            lemma_pow10_le(0, kept);
            assert(digits_val(ip) * 65536 >= 0) by (nonlinear_arith)
                requires
                    digits_val(ip) >= 0,
            ;
            assert(digits_val(fp.take(kept)) * 65536 >= 0) by (nonlinear_arith)
                requires
                    digits_val(fp.take(kept)) >= 0,
            ;
            vstd::arithmetic::div_mod::lemma_div_pos_is_pos(
                digits_val(fp.take(kept)) * 65536,
                pow10(kept),
            );
        }
    }
}

/// An index that `idx_parse` accepts is nonnegative and bounded.
proof fn lemma_idx_parse_range(t: Seq<u8>)
    ensures
        (match idx_parse(t) {
            Option::Some(v) => 0 <= v <= 0x1000_0000,
            Option::None => true,
        }),
{
    if t.len() > 0 {
        let u = if t[0] == 43 {
            t.drop_first()
        } else {
            t
        };
        if all_digits(u) && u.len() > 0 {
            lemma_digits_val_nonneg(u);
        }
    }
}

/// Once a prefix of the lines fails, the whole text fails the same
/// way.
proof fn lemma_parse_upto_err(lines: Seq<Seq<u8>>, k: int, n: int, e: LoadError)
    requires
        0 <= k <= n,
        parse_upto(lines, k) == Result::<(Seq<Vertex>, Seq<Face>), LoadError>::Err(e),
    ensures
        parse_upto(lines, n) == Result::<(Seq<Vertex>, Seq<Face>), LoadError>::Err(e),
    decreases n - k,
{
    if n > k {
        lemma_parse_upto_err(lines, k, n - 1, e);
    }
}

/// Loads a model from OBJ-style text, reading exactly what
/// `obj_parse` reads: on success the model holds the parsed buffers
/// and the identity transform.
#[verifier::rlimit(100)]
pub fn load_obj(data: &[u8]) -> (r: Result<Model, LoadError>)
    ensures
        (match obj_parse(data@) {
            Result::Ok(pair) => (match r {
                Result::Ok(m) => {
                    &&& m.wf()
                    &&& m.vertex_buffer@ == pair.0
                    &&& m.index_buffer@ == pair.1
                    &&& m.spec_transform().rotation == crate::fixed::mat3_identity()
                    &&& m.spec_transform().position == (Vec3 { x: 0i64, y: 0i64, z: 0i64 })
                    &&& m.spec_transform().scale == (Vec3 { x: 65536i64, y: 65536i64, z: 65536i64 })
                },
                Result::Err(_) => false,
            }),
            Result::Err(e) => r == Result::<Model, LoadError>::Err(e),
        }),
{
    let lines = take_lines(data);
    let ghost slines = split_lines(data@);
    let n = lines.len();
    let mut vs: Vec<Vertex> = Vec::new();
    let mut fs: Vec<Face> = Vec::new();
    let mut k: usize = 0;
    while k < n
        invariant
            toks_view(lines@) == slines,
            slines == split_lines(data@),
            n == lines@.len(),
            n == slines.len(),
            0 <= k <= n,
            parse_upto(slines, k as int) == Result::<(Seq<Vertex>, Seq<Face>), LoadError>::Ok(
                (vs@, fs@),
            ),
            forall|i: int|
                0 <= i < fs@.len() ==> face_ok(#[trigger] fs@[i], vs@.len() as int),
            forall|i: int|
                0 <= i < vs@.len() ==> crate::fixed::vec_ok((#[trigger] vs@[i]).position),
        decreases n - k,
    {
        let toks = take_tokens(lines[k].as_slice());
        let ghost stoks = spec_tokens(slines[k as int]);
        proof {
            assert(toks_view(lines@)[k as int] == lines@[k as int]@);
            assert(toks_view(toks@) == stoks);
        }
        let ghost pre_vs = vs@;
        let ghost pre_fs = fs@;
        if toks.len() > 0 {
            let is_v = toks[0].len() == 1 && toks[0][0] == 118;
            let is_f = !is_v && toks[0].len() == 1 && toks[0][0] == 102;
            proof {
                assert(toks_view(toks@)[0] == toks@[0]@);
                if is_v {
                    assert(stoks[0] =~= seq![118u8]);
                } else {
                    assert(stoks[0] != seq![118u8]) by {
                        if stoks[0] == seq![118u8] {
                            assert(toks@[0]@.len() == 1 && toks@[0]@[0] == 118);
                        }
                    }
                }
                if is_f {
                    assert(stoks[0] =~= seq![102u8]);
                } else if !is_v {
                    assert(stoks[0] != seq![102u8]) by {
                        if stoks[0] == seq![102u8] {
                            assert(toks@[0]@.len() == 1 && toks@[0]@[0] == 102);
                        }
                    }
                }
            }
            if is_v {
                if toks.len() < 4 {
                    proof {
                        lemma_parse_upto_err(
                            slines,
                            k as int + 1,
                            n as int,
                            LoadError::Parse { line: k },
                        );
                    }
                    return Result::Err(LoadError::Parse { line: k });
                }
                let x = parse_decimal(toks[1].as_slice());
                let y = parse_decimal(toks[2].as_slice());
                let z = parse_decimal(toks[3].as_slice());
                proof {
                    assert(toks_view(toks@)[1] == toks@[1]@);
                    assert(toks_view(toks@)[2] == toks@[2]@);
                    assert(toks_view(toks@)[3] == toks@[3]@);
                }
                proof {
                    lemma_dec_parse_range(toks@[1]@);
                    lemma_dec_parse_range(toks@[2]@);
                    lemma_dec_parse_range(toks@[3]@);
                }
                match (x, y, z) {
                    (Option::Some(xv), Option::Some(yv), Option::Some(zv)) => {
                        vs.push(Vertex { position: Vec3 { x: xv, y: yv, z: zv } });
                        assert(line_step(slines[k as int], k as int, pre_vs, pre_fs) == Result::<
                            (Seq<Vertex>, Seq<Face>),
                            LoadError,
                        >::Ok((vs@, fs@)));
                    },
                    _ => {
                        proof {
                            lemma_parse_upto_err(
                                slines,
                                k as int + 1,
                                n as int,
                                LoadError::Parse { line: k },
                            );
                        }
                        return Result::Err(LoadError::Parse { line: k });
                    },
                }
            } else if is_f {
                if toks.len() < 4 {
                    proof {
                        lemma_parse_upto_err(
                            slines,
                            k as int + 1,
                            n as int,
                            LoadError::Parse { line: k },
                        );
                    }
                    return Result::Err(LoadError::Parse { line: k });
                }
                let a = parse_index(toks[1].as_slice());
                let b = parse_index(toks[2].as_slice());
                let c = parse_index(toks[3].as_slice());
                proof {
                    assert(toks_view(toks@)[1] == toks@[1]@);
                    assert(toks_view(toks@)[2] == toks@[2]@);
                    assert(toks_view(toks@)[3] == toks@[3]@);
                    lemma_idx_parse_range(toks@[1]@);
                    lemma_idx_parse_range(toks@[2]@);
                    lemma_idx_parse_range(toks@[3]@);
                }
                match (a, b, c) {
                    (Option::Some(av), Option::Some(bv), Option::Some(cv)) => {
                        if 1 <= av && av <= vs.len() && 1 <= bv && bv <= vs.len() && 1 <= cv && cv
                            <= vs.len() {
                            fs.push(Face { indexes: (av, bv, cv) });
                            proof {
                                assert(stoks[0] == seq![102u8]);
                                assert(stoks.len() >= 4);
                                assert(idx_parse(stoks[1]) == Option::Some(av as int));
                                assert(idx_parse(stoks[2]) == Option::Some(bv as int));
                                assert(idx_parse(stoks[3]) == Option::Some(cv as int));
                                assert(1 <= av as int <= pre_vs.len());
                                assert(fs@ == pre_fs.push(
                                    Face { indexes: (av, bv, cv) },
                                ));
                            }
                            assert(line_step(slines[k as int], k as int, pre_vs, pre_fs)
                                == Result::<(Seq<Vertex>, Seq<Face>), LoadError>::Ok((vs@, fs@)));
                        } else {
                            proof {
                                lemma_parse_upto_err(
                                    slines,
                                    k as int + 1,
                                    n as int,
                                    LoadError::Index { line: k },
                                );
                            }
                            return Result::Err(LoadError::Index { line: k });
                        }
                    },
                    _ => {
                        proof {
                            lemma_parse_upto_err(
                                slines,
                                k as int + 1,
                                n as int,
                                LoadError::Parse { line: k },
                            );
                        }
                        return Result::Err(LoadError::Parse { line: k });
                    },
                }
            }
        }
        proof {
            assert(line_step(slines[k as int], k as int, pre_vs, pre_fs) == Result::<
                (Seq<Vertex>, Seq<Face>),
                LoadError,
            >::Ok((vs@, fs@)));
            assert(parse_upto(slines, k as int + 1) == Result::<
                (Seq<Vertex>, Seq<Face>),
                LoadError,
            >::Ok((vs@, fs@)));
        }
        k = k + 1;
    }
    let m = Model::from_buffers(vs, fs);
    Result::Ok(m)
}

} // verus!
