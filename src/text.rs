//! Character-level helpers: reading a string's characters, splitting on a
//! separator, and decimal numbers.

use vstd::prelude::*;

verus! {

/// The characters of `s`, in order.
pub fn chars_of(s: &str) -> (r: Vec<char>)
    ensures
        r@ == s@,
{
    let mut out: Vec<char> = Vec::new();
    for c in it: s.chars()
        invariant
            it.seq() == s@,
            out@ == s@.take(it.index() as int),
    {
        out.push(c);
    }
    assert(out@ =~= s@);
    out
}

/// A piece that is kept: empty pieces are dropped.
pub open spec fn keep(cur: Seq<char>) -> Seq<Seq<char>> {
    if cur.len() == 0 {
        Seq::empty()
    } else {
        seq![cur]
    }
}

/// Whether `sep` occurs in `s` at position `i`.
pub open spec fn sep_at(s: Seq<char>, sep: Seq<char>, i: int) -> bool {
    0 <= i && i + sep.len() <= s.len() && s.subrange(i, i + sep.len()) == sep
}

/// The non-empty pieces of `s` between occurrences of `sep`, scanned from
/// the left, where `cur` is the piece already begun.
pub open spec fn pieces_from(s: Seq<char>, sep: Seq<char>, cur: Seq<char>) -> Seq<Seq<char>>
    decreases s.len(),
{
    if s.len() == 0 {
        keep(cur)
    } else if sep.len() > 0 && sep_at(s, sep, 0) {
        keep(cur) + pieces_from(s.skip(sep.len() as int), sep, Seq::empty())
    } else {
        pieces_from(s.skip(1), sep, cur.push(s[0]))
    }
}

/// The non-empty pieces of `s` between occurrences of `sep`, left to right.
pub open spec fn pieces(s: Seq<char>, sep: Seq<char>) -> Seq<Seq<char>> {
    pieces_from(s, sep, Seq::empty())
}

/// The text that a list of spans selects from `s`.
pub open spec fn spans_text(s: Seq<char>, spans: Seq<(usize, usize)>) -> Seq<Seq<char>> {
    spans.map_values(|p: (usize, usize)| s.subrange(p.0 as int, p.1 as int))
}

/// Whether `sep` occurs in `s` at position `i`.
pub fn has_sep_at(s: &Vec<char>, sep: &Vec<char>, i: usize) -> (r: bool)
    requires
        i <= s.len(),
    ensures
        r == sep_at(s@, sep@, i as int),
{
    if sep.len() > s.len() - i {
        return false;
    }
    let mut j: usize = 0;
    while j < sep.len()
        invariant
            i + sep.len() <= s.len(),
            j <= sep.len(),
            forall|k: int| 0 <= k < j ==> s@[i + k] == sep@[k],
        decreases sep.len() - j,
    {
        if s[i + j] != sep[j] {
            assert(s@.subrange(i as int, i + sep.len())[j as int] != sep@[j as int]);
            return false;
        }
        j = j + 1;
    }
    assert(s@.subrange(i as int, i + sep.len()) =~= sep@);
    true
}

/// The spans of the non-empty pieces of `s` between occurrences of `sep`.
pub fn split_spans(s: &Vec<char>, sep: &Vec<char>) -> (r: Vec<(usize, usize)>)
    requires
        sep.len() > 0,
    ensures
        spans_text(s@, r@) == pieces(s@, sep@),
        forall|k: int| 0 <= k < r.len() ==> (#[trigger] r@[k]).0 <= r@[k].1 && r@[k].1 <= s.len(),
{
    let mut out: Vec<(usize, usize)> = Vec::new();
    let mut start: usize = 0;
    let mut i: usize = 0;
    assert(spans_text(s@, out@) =~= Seq::<Seq<char>>::empty());
    assert(s@.skip(0) =~= s@);
    assert(s@.subrange(0, 0) =~= Seq::<char>::empty());
    assert(Seq::<Seq<char>>::empty() + pieces(s@, sep@) =~= pieces(s@, sep@));
    while i < s.len()
        invariant
            sep.len() > 0,
            start <= i <= s.len(),
            forall|k: int| 0 <= k < out.len() ==> (#[trigger] out@[k]).0 <= out@[k].1 && out@[k].1 <= s.len(),
            spans_text(s@, out@) + pieces_from(s@.skip(i as int), sep@, s@.subrange(start as int, i as int))
                == pieces(s@, sep@),
        decreases s.len() - i,
    {
        let ghost rest = s@.skip(i as int);
        let ghost cur = s@.subrange(start as int, i as int);
        if has_sep_at(s, sep, i) {
            assert(sep_at(rest, sep@, 0)) by {
                assert(rest.subrange(0, sep@.len() as int) =~= s@.subrange(i as int, i + sep@.len()));
            }
            assert(rest.skip(sep@.len() as int) =~= s@.skip(i + sep@.len()));
            let old_out = Ghost(out@);
            if start < i {
                out.push((start, i));
                assert(spans_text(s@, out@) =~= spans_text(s@, old_out@) + keep(cur));
            } else {
                assert(spans_text(s@, out@) + keep(cur) =~= spans_text(s@, out@));
            }
            i = i + sep.len();
            start = i;
            assert(s@.subrange(start as int, i as int) =~= Seq::<char>::empty());
            assert(spans_text(s@, out@) + pieces_from(s@.skip(i as int), sep@, Seq::empty())
                =~= spans_text(s@, old_out@) + pieces_from(rest, sep@, cur));
        } else {
            assert(!sep_at(rest, sep@, 0)) by {
                if sep_at(rest, sep@, 0) {
                    assert(rest.subrange(0, sep@.len() as int) =~= s@.subrange(i as int, i + sep@.len()));
                }
            }
            assert(rest.skip(1) =~= s@.skip(i + 1));
            assert(cur.push(rest[0]) =~= s@.subrange(start as int, i + 1));
            i = i + 1;
        }
    }
    let ghost cur = s@.subrange(start as int, i as int);
    assert(s@.skip(i as int) =~= Seq::<char>::empty());
    if start < i {
        let ghost old_out = out@;
        out.push((start, i));
        assert(spans_text(s@, out@) =~= spans_text(s@, old_out) + keep(cur));
    } else {
        assert(spans_text(s@, out@) + keep(cur) =~= spans_text(s@, out@));
    }
    assert(forall|k: int| 0 <= k < out.len() ==> (#[trigger] out@[k]).0 <= out@[k].1 && out@[k].1 <= s.len());
    out
}

/// The decimal digit character for `d < 10`.
pub open spec fn digit_char(d: nat) -> char {
    seq!['0', '1', '2', '3', '4', '5', '6', '7', '8', '9'][d as int]
}

/// Whether `c` is one of the ASCII digits.
pub open spec fn is_digit(c: char) -> bool {
    '0' <= c && c <= '9'
}

/// The value of a digit character.
pub open spec fn char_value(c: char) -> nat {
    (c as nat - '0' as nat) as nat
}

/// The decimal notation of `n`, without leading zeros.
pub open spec fn decimal(n: nat) -> Seq<char>
    decreases n,
{
    if n < 10 {
        seq![digit_char(n)]
    } else {
        decimal(n / 10).push(digit_char(n % 10))
    }
}

/// Whether `s` is a non-empty run of digits.
pub open spec fn all_digits(s: Seq<char>) -> bool {
    s.len() > 0 && forall|i: int| 0 <= i < s.len() ==> is_digit(#[trigger] s[i])
}

/// The value of a run of digits, read as a decimal number.
pub open spec fn digits_value(s: Seq<char>) -> nat
    decreases s.len(),
{
    if s.len() == 0 {
        0
    } else {
        digits_value(s.drop_last()) * 10 + char_value(s.last())
    }
}

/// The unsigned number that `s` spells, optionally after a `+` sign, if it is
/// at most `limit`.
pub open spec fn parse_unsigned(s: Seq<char>, limit: nat) -> Option<nat> {
    let d = if s.len() > 0 && s[0] == '+' {
        s.skip(1)
    } else {
        s
    };
    if all_digits(d) && digits_value(d) <= limit {
        Some(digits_value(d))
    } else {
        None
    }
}

proof fn lemma_digit_char(d: nat)
    requires
        d < 10,
    ensures
        is_digit(digit_char(d)),
        char_value(digit_char(d)) == d,
        digit_char(d) != '+',
{
}

/// The decimal notation of a number reads back as that number.
pub proof fn lemma_decimal_reads_back(n: nat)
    ensures
        all_digits(decimal(n)),
        digits_value(decimal(n)) == n,
        decimal(n)[0] != '+',
    decreases n,
{
    if n < 10 {
        lemma_digit_char(n);
        assert(decimal(n).drop_last() =~= Seq::<char>::empty());
        assert(digits_value(Seq::<char>::empty()) == 0);
    } else {
        lemma_decimal_reads_back(n / 10);
        lemma_digit_char(n % 10);
        let d = decimal(n);
        assert(n == (n / 10) * 10 + n % 10);
        assert(d.last() == digit_char(n % 10));
        assert(d.drop_last() =~= decimal(n / 10));
        assert(digits_value(d) == digits_value(d.drop_last()) * 10 + char_value(d.last()));
        assert(digits_value(d.drop_last()) == n / 10);
        assert(char_value(d.last()) == n % 10);
        assert(d.drop_last() =~= decimal(n / 10));
        assert forall|i: int| 0 <= i < d.len() implies is_digit(#[trigger] d[i]) by {
            if i < d.len() - 1 {
                assert(d[i] == decimal(n / 10)[i]);
            }
        }
    }
}

proof fn lemma_digits_value_prefix(s: Seq<char>, k: int)
    requires
        0 <= k <= s.len(),
    ensures
        digits_value(s.take(k)) <= digits_value(s),
    decreases s.len(),
{
    if k < s.len() {
        assert(s.drop_last().take(k) =~= s.take(k));
        lemma_digits_value_prefix(s.drop_last(), k);
    } else {
        assert(s.take(k) =~= s);
    }
}

/// Appends the decimal notation of `n` to `out`.
pub fn push_decimal(out: &mut String, n: usize)
    ensures
        final(out)@ == old(out)@ + decimal(n as nat),
    decreases n,
{
    let digits = "0123456789";
    proof {
        reveal_strlit("0123456789");
    }
    if n >= 10 {
        push_decimal(out, n / 10);
    }
    let d = n % 10;
    let one = digits.substring_char(d, d + 1);
    assert(one@ =~= seq![digit_char(d as nat)]);
    out.append(one);
    assert(final(out)@ =~= old(out)@ + decimal(n as nat));
}

/// Reads `s` as an unsigned number at most `limit`, as `parse_unsigned` says.
pub fn read_unsigned(s: &Vec<char>, limit: usize) -> (r: Option<usize>)
    ensures
        r matches Some(v) ==> parse_unsigned(s@, limit as nat) == Some(v as nat),
        r is None ==> parse_unsigned(s@, limit as nat) is None,
{
    let start: usize = if s.len() > 0 && s[0] == '+' { 1 } else { 0 };
    let ghost d = s@.skip(start as int);
    assert(d =~= (if s@.len() > 0 && s@[0] == '+' { s@.skip(1) } else { s@ }));
    if start >= s.len() {
        return None;
    }
    let mut v: usize = 0;
    let mut i: usize = start;
    while i < s.len()
        invariant
            start <= i <= s.len(),
            d == s@.skip(start as int),
            d == (if s@.len() > 0 && s@[0] == '+' { s@.skip(1) } else { s@ }),
            v <= limit,
            v as nat == digits_value(d.take(i - start)),
            forall|k: int| 0 <= k < i - start ==> is_digit(#[trigger] d[k]),
        decreases s.len() - i,
    {
        let c = s[i];
        assert(d[i - start] == c);
        if c < '0' || c > '9' {
            assert(!is_digit(d[i - start]));
            assert(!all_digits(d));
            return None;
        }
        let digit = (c as u32 - '0' as u32) as usize;
        assert(digit as nat == char_value(c));
        if digit > limit {
            assert(digits_value(d.take(i - start + 1)) > limit) by {
                assert(d.take(i - start + 1).drop_last() =~= d.take(i - start));
            }
            proof {
                lemma_digits_value_prefix(d, i - start + 1);
            }
            return None;
        }
        assert(d.take(i - start + 1).drop_last() =~= d.take(i - start));
        assert(digits_value(d.take(i - start + 1)) == v * 10 + digit);
        if v > (limit - digit) / 10 {
            assert(v * 10 + digit > limit) by (nonlinear_arith)
                requires
                    v > (limit - digit) / 10,
                    digit <= limit,
            {
            }
            proof {
                lemma_digits_value_prefix(d, i - start + 1);
            }
            return None;
        }
        assert(v * 10 + digit <= limit) by (nonlinear_arith)
            requires
                v <= (limit - digit) / 10,
                digit <= limit,
        {
        }
        v = v * 10 + digit;
        i = i + 1;
    }
    assert(d.take(i - start) =~= d);
    assert(d.len() > 0);
    Some(v)
}

/// The characters of `v` from `lo` up to `hi`.
pub fn sub_chars(v: &Vec<char>, lo: usize, hi: usize) -> (r: Vec<char>)
    requires
        lo <= hi <= v.len(),
    ensures
        r@ == v@.subrange(lo as int, hi as int),
{
    let mut out: Vec<char> = Vec::new();
    let mut i: usize = lo;
    while i < hi
        invariant
            lo <= i <= hi <= v.len(),
            out@ == v@.subrange(lo as int, i as int),
        decreases hi - i,
    {
        out.push(v[i]);
        i = i + 1;
        assert(out@ =~= v@.subrange(lo as int, i as int));
    }
    out
}

/// Whether `c` does not occur in `s`.
pub open spec fn free_of(s: Seq<char>, c: char) -> bool {
    forall|i: int| 0 <= i < s.len() ==> #[trigger] s[i] != c
}

/// A run free of the separator's first character joins the piece already begun.
pub proof fn lemma_pieces_run(x: Seq<char>, r: Seq<char>, sep: Seq<char>, cur: Seq<char>)
    requires
        sep.len() > 0,
        free_of(x, sep[0]),
    ensures
        pieces_from(x + r, sep, cur) == pieces_from(r, sep, cur + x),
    decreases x.len(),
{
    if x.len() == 0 {
        assert(x + r =~= r);
        assert(cur + x =~= cur);
    } else {
        let s = x + r;
        assert(s[0] == x[0]);
        assert(!sep_at(s, sep, 0)) by {
            if sep_at(s, sep, 0) {
                assert(s.subrange(0, sep.len() as int)[0] == sep[0]);
            }
        }
        assert(s.skip(1) =~= x.skip(1) + r);
        assert(cur.push(x[0]) + x.skip(1) =~= cur + x);
        assert(free_of(x.skip(1), sep[0])) by {
            assert forall|i: int| 0 <= i < x.skip(1).len() implies #[trigger] x.skip(1)[i]
                != sep[0] by {
                assert(x.skip(1)[i] == x[i + 1]);
            }
        }
        lemma_pieces_run(x.skip(1), r, sep, cur.push(x[0]));
    }
}

/// A non-empty run free of the separator's first character, followed by the
/// separator, is one piece.
pub proof fn lemma_pieces_field(x: Seq<char>, r: Seq<char>, sep: Seq<char>)
    requires
        sep.len() > 0,
        free_of(x, sep[0]),
        x.len() > 0,
    ensures
        pieces(x + sep + r, sep) == seq![x] + pieces(r, sep),
{
    let s = x + sep + r;
    assert(s =~= x + (sep + r));
    lemma_pieces_run(x, sep + r, sep, Seq::empty());
    assert(Seq::<char>::empty() + x =~= x);
    let t = sep + r;
    assert(sep_at(t, sep, 0)) by {
        assert(t.subrange(0, sep.len() as int) =~= sep);
    }
    assert(t.skip(sep.len() as int) =~= r);
}

/// A non-empty run free of `c` is a single piece.
pub proof fn lemma_pieces_last(x: Seq<char>, c: char)
    requires
        free_of(x, c),
        x.len() > 0,
    ensures
        pieces(x, seq![c]) == seq![x],
{
    lemma_pieces_run(x, Seq::empty(), seq![c], Seq::empty());
    assert(x + Seq::<char>::empty() =~= x);
    assert(Seq::<char>::empty() + x =~= x);
}

} // verus!
