//! Character-level text utilities shared by the parsers and formatters:
//! whitespace trimming, case-insensitive comparison, first-occurrence search,
//! and decimal rendering/parsing of session counters.

use vstd::prelude::*;

verus! {

/// ASCII whitespace, the only whitespace the engine trims.
pub open spec fn is_ws_char(c: char) -> bool {
    c == ' ' || c == '\t' || c == '\r' || c == '\n'
}

/// Index of the first non-whitespace character, or `s.len()` if all whitespace.
pub open spec fn first_non_ws(s: Seq<char>) -> int
    decreases s.len(),
{
    if s.len() == 0 {
        0
    } else if !is_ws_char(s.first()) {
        0
    } else {
        1 + first_non_ws(s.drop_first())
    }
}

/// One past the last non-whitespace character, or 0 if all whitespace.
pub open spec fn end_non_ws(s: Seq<char>) -> int
    decreases s.len(),
{
    if s.len() == 0 {
        0
    } else if !is_ws_char(s.last()) {
        s.len() as int
    } else {
        end_non_ws(s.drop_last())
    }
}

/// The sequence with leading and trailing ASCII whitespace removed.
pub open spec fn trim_spec(s: Seq<char>) -> Seq<char> {
    if first_non_ws(s) >= end_non_ws(s) {
        Seq::empty()
    } else {
        s.subrange(first_non_ws(s), end_non_ws(s))
    }
}

pub proof fn lemma_first_non_ws(s: Seq<char>)
    ensures
        0 <= first_non_ws(s) <= s.len(),
        forall|i: int| 0 <= i < first_non_ws(s) ==> is_ws_char(s[i]),
        first_non_ws(s) < s.len() ==> !is_ws_char(s[first_non_ws(s)]),
    decreases s.len(),
{
    if s.len() > 0 && is_ws_char(s.first()) {
        lemma_first_non_ws(s.drop_first());
        assert forall|i: int| 0 <= i < first_non_ws(s) implies is_ws_char(s[i]) by {
            if i > 0 {
                assert(s.drop_first()[i - 1] == s[i]);
            }
        }
    }
}

pub proof fn lemma_end_non_ws(s: Seq<char>)
    ensures
        0 <= end_non_ws(s) <= s.len(),
        forall|i: int| end_non_ws(s) <= i < s.len() ==> is_ws_char(s[i]),
        end_non_ws(s) > 0 ==> !is_ws_char(s[end_non_ws(s) - 1]),
    decreases s.len(),
{
    if s.len() > 0 && is_ws_char(s.last()) {
        lemma_end_non_ws(s.drop_last());
        assert forall|i: int| end_non_ws(s) <= i < s.len() implies is_ws_char(s[i]) by {
            if i < s.len() - 1 {
                assert(s.drop_last()[i] == s[i]);
            }
        }
    }
}

/// Pins `first_non_ws` to a concrete index found by a scan.
pub proof fn lemma_first_non_ws_is(s: Seq<char>, k: int)
    requires
        0 <= k <= s.len(),
        forall|i: int| 0 <= i < k ==> is_ws_char(s[i]),
        k < s.len() ==> !is_ws_char(s[k]),
    ensures
        first_non_ws(s) == k,
    decreases s.len(),
{
    if s.len() > 0 && is_ws_char(s.first()) {
        assert(k >= 1);
        lemma_first_non_ws_is(s.drop_first(), k - 1);
    }
}

/// Pins `end_non_ws` to a concrete bound found by a scan.
pub proof fn lemma_end_non_ws_is(s: Seq<char>, k: int)
    requires
        0 <= k <= s.len(),
        forall|i: int| k <= i < s.len() ==> is_ws_char(s[i]),
        k > 0 ==> !is_ws_char(s[k - 1]),
    ensures
        end_non_ws(s) == k,
    decreases s.len(),
{
    if s.len() > 0 && is_ws_char(s.last()) {
        assert(k < s.len());
        lemma_end_non_ws_is(s.drop_last(), k);
    }
}

/// A sequence with no whitespace anywhere trims to itself.
pub proof fn lemma_trim_no_ws(s: Seq<char>)
    requires
        forall|i: int| 0 <= i < s.len() ==> !is_ws_char(s[i]),
    ensures
        trim_spec(s) == s,
{
    lemma_first_non_ws_is(s, 0);
    lemma_end_non_ws_is(s, s.len() as int);
    if s.len() > 0 {
        assert(trim_spec(s) =~= s);
    } else {
        assert(trim_spec(s) =~= s);
    }
}

/// Trimming is unaffected by one leading whitespace character.
pub proof fn lemma_trim_cons_ws(c: char, s: Seq<char>)
    requires
        is_ws_char(c),
    ensures
        trim_spec(seq![c] + s) == trim_spec(s),
{
    let t = seq![c] + s;
    lemma_first_non_ws(s);
    lemma_end_non_ws(s);
    assert forall|i: int| 0 <= i < 1 + first_non_ws(s) implies is_ws_char(t[i]) by {
        if i > 0 {
            assert(t[i] == s[i - 1]);
        }
    }
    lemma_first_non_ws_is(t, 1 + first_non_ws(s));
    lemma_end_non_ws_is(t, if end_non_ws(s) == 0 { 0 } else { 1 + end_non_ws(s) });
    if end_non_ws(s) == 0 {
        lemma_end_non_ws_is(t, 0);
        assert(trim_spec(t) =~= trim_spec(s));
    } else {
        assert(trim_spec(t) =~= trim_spec(s));
    }
}

/// Trims leading and trailing ASCII whitespace.
pub fn trim_str(s: &str) -> (r: String)
    ensures
        r@ == trim_spec(s@),
{
    let n = s.unicode_len();
    let mut lo: usize = 0;
    while lo < n && is_ws(s.get_char(lo))
        invariant
            0 <= lo <= n,
            n == s@.len(),
            forall|i: int| 0 <= i < lo ==> is_ws_char(s@[i]),
        decreases n - lo,
    {
        lo = lo + 1;
    }
    proof {
        lemma_first_non_ws_is(s@, lo as int);
    }
    let mut hi: usize = n;
    while hi > lo && is_ws(s.get_char(hi - 1))
        invariant
            lo <= hi <= n,
            n == s@.len(),
            forall|i: int| 0 <= i < lo ==> is_ws_char(s@[i]),
            forall|i: int| hi <= i < n ==> is_ws_char(s@[i]),
        decreases hi,
    {
        hi = hi - 1;
    }
    if hi == lo {
        proof {
            lemma_end_non_ws(s@);
            lemma_first_non_ws(s@);
        }
        String::new()
    } else {
        proof {
            lemma_end_non_ws_is(s@, hi as int);
        }
        s.substring_char(lo, hi).to_owned()
    }
}

/// Whether a character is ASCII whitespace.
pub fn is_ws(c: char) -> (r: bool)
    ensures
        r == is_ws_char(c),
{
    c == ' ' || c == '\t' || c == '\r' || c == '\n'
}

/// Character-by-character equality of two strings.
pub fn str_eq(a: &str, b: &str) -> (r: bool)
    ensures
        r == (a@ == b@),
{
    let n = a.unicode_len();
    if n != b.unicode_len() {
        proof {
            assert(a@.len() != b@.len());
        }
        return false;
    }
    let mut i: usize = 0;
    while i < n
        invariant
            0 <= i <= n,
            n == a@.len() == b@.len(),
            forall|j: int| 0 <= j < i ==> a@[j] == b@[j],
        decreases n - i,
    {
        if a.get_char(i) != b.get_char(i) {
            proof {
                assert(a@[i as int] != b@[i as int]);
            }
            return false;
        }
        i = i + 1;
    }
    proof {
        assert(a@ =~= b@);
    }
    true
}

/// ASCII lowercase of one character.
pub open spec fn lower_char(c: char) -> char {
    if 'A' <= c <= 'Z' {
        (((c as u8) + 32) as char)
    } else {
        c
    }
}

/// ASCII-lowercased view of a string.
pub open spec fn lower_seq(s: Seq<char>) -> Seq<char> {
    s.map_values(|c: char| lower_char(c))
}

/// Case-insensitive (ASCII) string equality.
pub fn eq_ignore_case(a: &str, b: &str) -> (r: bool)
    ensures
        r == (lower_seq(a@) == lower_seq(b@)),
{
    let n = a.unicode_len();
    if n != b.unicode_len() {
        proof {
            assert(lower_seq(a@).len() != lower_seq(b@).len());
        }
        return false;
    }
    let mut i: usize = 0;
    while i < n
        invariant
            0 <= i <= n,
            n == a@.len() == b@.len(),
            forall|j: int| 0 <= j < i ==> lower_char(a@[j]) == lower_char(b@[j]),
        decreases n - i,
    {
        let ca = lower_exec(a.get_char(i));
        let cb = lower_exec(b.get_char(i));
        if ca != cb {
            proof {
                assert(lower_seq(a@)[i as int] != lower_seq(b@)[i as int]);
            }
            return false;
        }
        i = i + 1;
    }
    proof {
        assert(lower_seq(a@) =~= lower_seq(b@));
    }
    true
}

/// ASCII lowercase of one character, executable form.
pub fn lower_exec(c: char) -> (r: char)
    ensures
        r == lower_char(c),
{
    if c >= 'A' && c <= 'Z' {
        (((c as u8) + 32) as char)
    } else {
        c
    }
}

/// Decimal digit?
pub open spec fn is_digit_char(c: char) -> bool {
    '0' <= c <= '9'
}

pub open spec fn digit_val(c: char) -> nat {
    (c as int - '0' as int) as nat
}

/// Nonempty and all decimal digits.
pub open spec fn is_digits(s: Seq<char>) -> bool {
    s.len() > 0 && forall|i: int| 0 <= i < s.len() ==> is_digit_char(s[i])
}

/// Numeric value of a digit string.
pub open spec fn dec_val(s: Seq<char>) -> nat
    decreases s.len(),
{
    if s.len() == 0 {
        0
    } else {
        10 * dec_val(s.drop_last()) + digit_val(s.last())
    }
}

pub open spec fn digit_char(d: nat) -> char {
    ((48 + d) as u8) as char
}

/// Canonical decimal rendering of a natural number.
pub open spec fn dec_str(n: nat) -> Seq<char>
    decreases n,
{
    if n < 10 {
        seq![digit_char(n)]
    } else {
        dec_str(n / 10).push(digit_char(n % 10))
    }
}

/// The decimal rendering consists of digits and reads back to the same value.
pub proof fn lemma_dec_str_val(n: nat)
    ensures
        is_digits(dec_str(n)),
        dec_val(dec_str(n)) == n,
    decreases n,
{
    if n < 10 {
        let s = dec_str(n);
        assert(s.len() == 1);
        assert(s.drop_last() =~= Seq::<char>::empty());
        assert(dec_val(Seq::<char>::empty()) == 0);
        assert(digit_char(n) as int == 48 + n);
        assert(digit_val(digit_char(n)) == n);
        assert(dec_val(s) == 10 * dec_val(s.drop_last()) + digit_val(s.last()));
    } else {
        lemma_dec_str_val(n / 10);
        let a = dec_str(n / 10);
        let c = digit_char(n % 10);
        assert(a.push(c).drop_last() =~= a);
        assert(a.push(c).last() == c);
        assert(digit_val(c) == n % 10);
        assert(10 * (n / 10) + n % 10 == n) by (nonlinear_arith);
        assert forall|i: int| 0 <= i < a.push(c).len() implies is_digit_char(a.push(c)[i]) by {
            if i < a.len() {
                assert(a.push(c)[i] == a[i]);
            }
        }
    }
}

/// The value Rust's `u32` parser would yield, with failures mapped to 0.
pub open spec fn parse_u32_spec(s: Seq<char>) -> u32 {
    let t = if s.len() > 0 && s[0] == '+' {
        s.drop_first()
    } else {
        s
    };
    if is_digits(t) && dec_val(t) <= u32::MAX {
        dec_val(t) as u32
    } else {
        0
    }
}

/// Parses a decimal `u32`, returning 0 on any malformed or overflowing input.
pub fn parse_u32(s: &str) -> (r: u32)
    ensures
        r == parse_u32_spec(s@),
{
    let n = s.unicode_len();
    let start: usize = if n > 0 && s.get_char(0) == '+' {
        1
    } else {
        0
    };
    let ghost t = if s@.len() > 0 && s@[0] == '+' {
        s@.drop_first()
    } else {
        s@
    };
    proof {
        assert(t =~= s@.subrange(start as int, n as int));
    }
    if n == start {
        return 0;
    }
    let mut acc: u32 = 0;
    let mut i: usize = start;
    let mut too_big = false;
    while i < n
        invariant
            start <= i <= n,
            n == s@.len(),
            n > start,
            start == (if s@.len() > 0 && s@[0] == '+' {
                1int
            } else {
                0int
            }),
            t == s@.subrange(start as int, n as int),
            forall|j: int| start <= j < i ==> is_digit_char(s@[j]),
            !too_big ==> acc == dec_val(t.take(i - start)),
            too_big ==> dec_val(t.take(i - start)) > u32::MAX,
        decreases n - i,
    {
        let c = s.get_char(i);
        if c < '0' || c > '9' {
            proof {
                assert(0 <= i - start < t.len());
                assert(t[i - start] == s@[i as int]);
                assert(!is_digit_char(t[i - start]));
                assert(!is_digits(t));
                assert(t =~= (if s@.len() > 0 && s@[0] == '+' {
                    s@.drop_first()
                } else {
                    s@
                }));
                assert(parse_u32_spec(s@) == 0);
            }
            return 0;
        }
        let d: u32 = (c as u32) - 48;
        proof {
            assert(t.take(i - start + 1).drop_last() =~= t.take(i - start));
            assert(t.take(i - start + 1).last() == t[i - start]);
            assert(digit_val(t[i - start]) == d);
        }
        if too_big {
            proof {
                assert(dec_val(t.take(i - start + 1)) == 10 * dec_val(t.take(i - start))
                    + digit_val(t[i - start]));
                assert(10 * dec_val(t.take(i - start)) >= dec_val(t.take(i - start)))
                    by (nonlinear_arith);
            }
        } else {
            let wide: u64 = (acc as u64) * 10 + (d as u64);
            if wide > u32::MAX as u64 {
                too_big = true;
            } else {
                acc = wide as u32;
            }
        }
        i = i + 1;
    }
    proof {
        assert(t.take(n - start) =~= t);
        assert forall|j: int| 0 <= j < t.len() implies is_digit_char(t[j]) by {
            assert(t[j] == s@[start + j]);
        }
        assert(is_digits(t));
        assert(t =~= (if s@.len() > 0 && s@[0] == '+' {
            s@.drop_first()
        } else {
            s@
        }));
    }
    if too_big {
        0
    } else {
        acc
    }
}

/// Appends the decimal digits of `n` (as ASCII bytes) to `out`.
pub fn push_dec_bytes(n: u32, out: &mut Vec<u8>)
    ensures
        final(out)@.map_values(|b: u8| b as char) == old(out)@.map_values(|b: u8| b as char)
            + dec_str(n as nat),
        final(out)@.len() >= old(out)@.len(),
        forall|i: int| 0 <= i < old(out)@.len() ==> final(out)@[i] == old(out)@[i],
        forall|i: int| old(out)@.len() <= i < final(out)@.len() ==> 48 <= #[trigger] final(out)@[i] <= 57,
    decreases n,
{
    if n >= 10 {
        push_dec_bytes(n / 10, out);
    }
    let ghost before = out@;
    let d: u8 = (n % 10) as u8 + 48;
    out.push(d);
    proof {
        assert(out@.map_values(|b: u8| b as char) =~= before.map_values(|b: u8| b as char)
            + seq![digit_char((n % 10) as nat)]);
        if n < 10 {
            assert(dec_str(n as nat) == seq![digit_char(n as nat)]);
        } else {
            assert(dec_str(n as nat) == dec_str((n / 10) as nat).push(digit_char((n % 10) as nat)));
            assert(old(out)@.map_values(|b: u8| b as char) + dec_str(n as nat) =~= before.map_values(
                |b: u8| b as char) + seq![digit_char((n % 10) as nat)]);
        }
        if n < 10 {
            assert(old(out)@.map_values(|b: u8| b as char) + dec_str(n as nat) =~= out@.map_values(
                |b: u8| b as char));
        }
    }
}

/// Relies on `String::from_utf8`: ASCII bytes decode to exactly those characters.
#[verifier::external_body]
pub(crate) fn ascii_to_string(bytes: Vec<u8>) -> (r: String)
    requires
        forall|i: int| 0 <= i < bytes@.len() ==> bytes@[i] < 0x80,
    ensures
        r@ == bytes@.map_values(|b: u8| b as char),
{
    String::from_utf8(bytes).unwrap()
}

/// Renders `n` in decimal.
pub fn u32_to_string(n: u32) -> (r: String)
    ensures
        r@ == dec_str(n as nat),
{
    let mut out: Vec<u8> = Vec::new();
    push_dec_bytes(n, &mut out);
    proof {
        assert(Seq::<u8>::empty().map_values(|b: u8| b as char) =~= Seq::<char>::empty());
        assert(out@.map_values(|b: u8| b as char) =~= dec_str(n as nat));
    }
    ascii_to_string(out)
}

/// Index of the first occurrence of `c`, or `s.len()` if absent.
pub open spec fn find_char(s: Seq<char>, c: char) -> int
    decreases s.len(),
{
    if s.len() == 0 {
        0
    } else if s.first() == c {
        0
    } else {
        1 + find_char(s.drop_first(), c)
    }
}

/// Pins `find_char` to a concrete index found by a scan.
pub proof fn lemma_find_char_is(s: Seq<char>, c: char, k: int)
    requires
        0 <= k <= s.len(),
        forall|i: int| 0 <= i < k ==> s[i] != c,
        k < s.len() ==> s[k] == c,
    ensures
        find_char(s, c) == k,
    decreases s.len(),
{
    if s.len() > 0 && s.first() != c {
        assert(k >= 1);
        lemma_find_char_is(s.drop_first(), c, k - 1);
    }
}

/// The text with every `'\n'` replaced by `"\r\n"`, for terminal output.
pub open spec fn crlf_of(s: Seq<char>) -> Seq<char>
    decreases s.len(),
{
    if s.len() == 0 {
        Seq::empty()
    } else if s.first() == '\n' {
        seq!['\r', '\n'] + crlf_of(s.drop_first())
    } else {
        seq![s.first()] + crlf_of(s.drop_first())
    }
}

/// Text without newlines passes through unchanged.
proof fn lemma_crlf_no_nl(s: Seq<char>)
    requires
        forall|i: int| 0 <= i < s.len() ==> s[i] != '\n',
    ensures
        crlf_of(s) == s,
    decreases s.len(),
{
    if s.len() > 0 {
        lemma_crlf_no_nl(s.drop_first());
        assert(crlf_of(s) =~= s);
    }
}

/// `crlf_of` distributes over concatenation.
proof fn lemma_crlf_concat(a: Seq<char>, b: Seq<char>)
    ensures
        crlf_of(a + b) == crlf_of(a) + crlf_of(b),
    decreases a.len(),
{
    if a.len() == 0 {
        assert(a + b =~= b);
        assert(crlf_of(a) + crlf_of(b) =~= crlf_of(b));
    } else {
        lemma_crlf_concat(a.drop_first(), b);
        assert((a + b).first() == a.first());
        assert((a + b).drop_first() =~= a.drop_first() + b);
        if a.first() == '\n' {
            assert(crlf_of(a + b) =~= crlf_of(a) + crlf_of(b));
        } else {
            assert(crlf_of(a + b) =~= crlf_of(a) + crlf_of(b));
        }
    }
}

/// Replaces every `'\n'` with `"\r\n"`.
pub fn crlf_lines(s: &str) -> (r: String)
    ensures
        r@ == crlf_of(s@),
{
    let n = s.unicode_len();
    let mut out = String::new();
    let mut pos: usize = 0;
    proof {
        assert(s@.skip(0) =~= s@);
        assert(out@ + crlf_of(s@) =~= crlf_of(s@));
    }
    while pos < n
        invariant
            0 <= pos <= n,
            n == s@.len(),
            crlf_of(s@) == out@ + crlf_of(s@.skip(pos as int)),
        decreases n - pos,
    {
        let ghost rest = s@.skip(pos as int);
        let ghost pre = out@;
        let end = match find_char_at(s, pos, '\n') {
            Some(i) => i,
            None => n,
        };
        let seg = s.substring_char(pos, end);
        out.append(seg);
        proof {
            assert(seg@ =~= rest.take(end - pos));
            assert forall|k: int| 0 <= k < seg@.len() implies seg@[k] != '\n' by {
                assert(seg@[k] == s@[pos + k]);
            }
            lemma_crlf_no_nl(seg@);
        }
        if end < n {
            out.append("\r\n");
            proof {
                let rest2 = s@.skip(end + 1);
                assert(rest =~= seg@ + (seq!['\n'] + rest2));
                lemma_crlf_concat(seg@, seq!['\n'] + rest2);
                assert((seq!['\n'] + rest2).first() == '\n');
                assert((seq!['\n'] + rest2).drop_first() =~= rest2);
                assert(crlf_of(seq!['\n'] + rest2) == seq!['\r', '\n'] + crlf_of(rest2));
                assert("\r\n"@ =~= seq!['\r', '\n']) by {
                    reveal_strlit("\r\n");
                }
                assert(out@ =~= pre + seg@ + seq!['\r', '\n']);
                assert(out@ + crlf_of(rest2) =~= crlf_of(s@));
            }
        } else {
            proof {
                assert(seg@ =~= rest);
                assert(s@.skip(n as int) =~= Seq::<char>::empty());
                assert(out@ + crlf_of(Seq::<char>::empty()) =~= crlf_of(s@));
            }
        }
        pos = if end < n {
            end + 1
        } else {
            n
        };
    }
    proof {
        assert(s@.skip(n as int) =~= Seq::<char>::empty());
        assert(out@ + crlf_of(Seq::<char>::empty()) =~= out@);
    }
    out
}

/// The first whitespace-delimited token of a command line.
pub open spec fn cmd_token(t: Seq<char>) -> Seq<char> {
    let i = find_char(t, ' ');
    if 0 <= i < t.len() {
        t.take(i)
    } else {
        t
    }
}

/// The rest of a command line after its first token, trimmed.
pub open spec fn cmd_arg(t: Seq<char>) -> Seq<char> {
    let i = find_char(t, ' ');
    if 0 <= i < t.len() {
        trim_spec(t.skip(i + 1))
    } else {
        Seq::empty()
    }
}

/// Finds the first occurrence of `c` in `s` at or after `from`.
pub fn find_char_at(s: &str, from: usize, c: char) -> (r: Option<usize>)
    requires
        from <= s@.len(),
    ensures
        match r {
            Some(i) => from <= i < s@.len() && s@[i as int] == c && forall|j: int|
                from <= j < i ==> s@[j] != c,
            None => forall|j: int| from <= j < s@.len() ==> s@[j] != c,
        },
{
    let n = s.unicode_len();
    let mut i: usize = from;
    while i < n
        invariant
            from <= i <= n,
            n == s@.len(),
            forall|j: int| from <= j < i ==> s@[j] != c,
        decreases n - i,
    {
        if s.get_char(i) == c {
            return Some(i);
        }
        i = i + 1;
    }
    None
}

} // verus!
