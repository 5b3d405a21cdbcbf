//! Text handling shared by the rest of the library: whitespace, tokens,
//! splitting, decimal numbers and ordering of strings, all over the `char`
//! sequences that Verus gives as the view of `str` and `String`.
use vstd::prelude::*;

verus! {

/// The characters that carry Unicode's `White_Space` property, which is what
/// `char::is_whitespace`, `str::trim` and `str::split_whitespace` go by.
pub open spec fn is_ws(c: char) -> bool {
    ||| ('\u{9}' <= c && c <= '\u{d}')
    ||| c == ' '
    ||| c == '\u{85}'
    ||| c == '\u{a0}'
    ||| c == '\u{1680}'
    ||| ('\u{2000}' <= c && c <= '\u{200a}')
    ||| c == '\u{2028}'
    ||| c == '\u{2029}'
    ||| c == '\u{202f}'
    ||| c == '\u{205f}'
    ||| c == '\u{3000}'
}

/// Whether `c` is a whitespace character.
pub fn is_whitespace(c: char) -> (b: bool)
    ensures
        b == is_ws(c),
{
    ('\u{9}' <= c && c <= '\u{d}') || c == ' ' || c == '\u{85}' || c == '\u{a0}' || c == '\u{1680}'
        || ('\u{2000}' <= c && c <= '\u{200a}') || c == '\u{2028}' || c == '\u{2029}' || c
        == '\u{202f}' || c == '\u{205f}' || c == '\u{3000}'
}

/// The characters of `s`, in order.
pub fn chars_of(s: &str) -> (v: Vec<char>)
    ensures
        v@ == s@,
{
    let mut v: Vec<char> = Vec::new();
    for c in it: s.chars()
        invariant
            v@ == it.seq().take(it.index() as int),
            it.seq() == s@,
    {
        v.push(c);
    }
    v
}

/// First position at or after `i` that does not hold whitespace (or the end).
pub open spec fn skip_ws(s: Seq<char>, i: int) -> int
    decreases s.len() - i,
{
    if 0 <= i < s.len() && is_ws(s[i]) {
        skip_ws(s, i + 1)
    } else {
        i
    }
}

/// Going back from `j`, but not below `lo`, the first position whose left
/// neighbour is not whitespace.
pub open spec fn back_ws(s: Seq<char>, lo: int, j: int) -> int
    decreases j - lo,
{
    if lo < j <= s.len() && is_ws(s[j - 1]) {
        back_ws(s, lo, j - 1)
    } else {
        j
    }
}

/// `s` without leading and trailing whitespace (`str::trim`).
pub open spec fn trim_spec(s: Seq<char>) -> Seq<char> {
    let a = skip_ws(s, 0);
    s.subrange(a, back_ws(s, a, s.len() as int))
}

pub proof fn lemma_skip_ws_bounds(s: Seq<char>, i: int)
    requires
        0 <= i <= s.len(),
    ensures
        i <= skip_ws(s, i) <= s.len(),
        forall|k: int| i <= k < skip_ws(s, i) ==> is_ws(s[k]),
        skip_ws(s, i) < s.len() ==> !is_ws(s[skip_ws(s, i)]),
    decreases s.len() - i,
{
    if i < s.len() && is_ws(s[i]) {
        lemma_skip_ws_bounds(s, i + 1);
    }
}

/// `s` with leading and trailing whitespace removed.
pub fn trim(s: &str) -> (r: &str)
    ensures
        r@ == trim_spec(s@),
{
    let v = chars_of(s);
    let n = v.len();
    let mut i: usize = 0;
    while i < n && is_whitespace(v[i])
        invariant
            v@ == s@,
            n == v@.len(),
            0 <= i <= n,
            skip_ws(s@, 0) == skip_ws(s@, i as int),
        decreases n - i,
    {
        i = i + 1;
    }
    let mut j: usize = n;
    while j > i && is_whitespace(v[j - 1])
        invariant
            v@ == s@,
            n == v@.len(),
            0 <= i <= j <= n,
            skip_ws(s@, 0) == i,
            back_ws(s@, i as int, n as int) == back_ws(s@, i as int, j as int),
        decreases j,
    {
        j = j - 1;
    }
    s.substring_char(i, j)
}

/// End of the run of non-whitespace characters that starts at `a`.
pub open spec fn run_end(s: Seq<char>, a: int) -> int
    decreases s.len() - a,
{
    if 0 <= a < s.len() && !is_ws(s[a]) {
        run_end(s, a + 1)
    } else {
        a
    }
}

pub proof fn lemma_run_end_bounds(s: Seq<char>, a: int)
    requires
        0 <= a <= s.len(),
    ensures
        a <= run_end(s, a) <= s.len(),
        forall|k: int| a <= k < run_end(s, a) ==> !is_ws(s[k]),
        run_end(s, a) < s.len() ==> is_ws(s[run_end(s, a)]),
    decreases s.len() - a,
{
    if a < s.len() && !is_ws(s[a]) {
        lemma_run_end_bounds(s, a + 1);
    }
}

/// The whitespace-separated tokens of `s` from position `i` on
/// (`str::split_whitespace`).
pub open spec fn tokens_from(s: Seq<char>, i: int) -> Seq<Seq<char>>
    decreases s.len() - i,
{
    if 0 <= i <= s.len() {
        let a = skip_ws(s, i);
        if a >= s.len() {
            Seq::empty()
        } else {
            let b = run_end(s, a);
            if i < b <= s.len() {
                seq![s.subrange(a, b)] + tokens_from(s, b)
            } else {
                Seq::empty()
            }
        }
    } else {
        Seq::empty()
    }
}

/// The whitespace-separated tokens of `s`.
pub open spec fn tokens(s: Seq<char>) -> Seq<Seq<char>> {
    tokens_from(s, 0)
}

/// The whitespace-separated tokens of `s`, as owned strings.
pub fn split_ws(s: &str) -> (r: Vec<String>)
    ensures
        r.deep_view() == tokens(s@),
{
    let v = chars_of(s);
    let n = v.len();
    let mut out: Vec<String> = Vec::new();
    let mut i: usize = 0;
    while i < n
        invariant
            v@ == s@,
            n == v@.len(),
            0 <= i <= n,
            tokens(s@) == out.deep_view() + tokens_from(s@, i as int),
        decreases n - i,
    {
        let ghost i0 = i as int;
        proof {
            lemma_skip_ws_bounds(s@, i0);
        }
        let mut a: usize = i;
        while a < n && is_whitespace(v[a])
            invariant
                v@ == s@,
                n == v@.len(),
                i0 <= a <= n,
                skip_ws(s@, i0) == skip_ws(s@, a as int),
            decreases n - a,
        {
            a = a + 1;
        }
        if a >= n {
            assert(tokens_from(s@, i0) =~= Seq::<Seq<char>>::empty());
            assert(out.deep_view() + tokens_from(s@, i0) =~= out.deep_view());
            i = n;
            assert(tokens_from(s@, n as int) =~= Seq::<Seq<char>>::empty());
            assert(out.deep_view() + tokens_from(s@, i as int) =~= out.deep_view());
        } else {
            proof {
                lemma_run_end_bounds(s@, a as int);
            }
            let mut b: usize = a;
            while b < n && !is_whitespace(v[b])
                invariant
                    v@ == s@,
                    n == v@.len(),
                    a <= b <= n,
                    run_end(s@, a as int) == run_end(s@, b as int),
                decreases n - b,
            {
                b = b + 1;
            }
            assert(b > a) by {
                assert(!is_ws(s@[a as int]));
            }
            let tok: String = s.substring_char(a, b).to_owned();
            let ghost before = out.deep_view();
            out.push(tok);
            assert(out.deep_view() =~= before.push(s@.subrange(a as int, b as int)));
            assert(tokens_from(s@, i0) == seq![s@.subrange(a as int, b as int)] + tokens_from(
                s@,
                b as int,
            ));
            assert(before + tokens_from(s@, i0) =~= out.deep_view() + tokens_from(s@, b as int));
            i = b;
        }
    }
    assert(tokens_from(s@, n as int) =~= Seq::<Seq<char>>::empty());
    assert(out.deep_view() + tokens_from(s@, n as int) =~= out.deep_view());
    out
}

/// First position at or after `i` that holds `c` (or the end).
pub open spec fn find_from(s: Seq<char>, c: char, i: int) -> int
    decreases s.len() - i,
{
    if 0 <= i < s.len() && s[i] != c {
        find_from(s, c, i + 1)
    } else {
        i
    }
}

pub proof fn lemma_find_from_bounds(s: Seq<char>, c: char, i: int)
    requires
        0 <= i <= s.len(),
    ensures
        i <= find_from(s, c, i) <= s.len(),
        forall|k: int| i <= k < find_from(s, c, i) ==> s[k] != c,
        find_from(s, c, i) < s.len() ==> s[find_from(s, c, i)] == c,
    decreases s.len() - i,
{
    if i < s.len() && s[i] != c {
        lemma_find_from_bounds(s, c, i + 1);
    }
}

/// The pieces of `s` from position `i` on, cut at every `c` (`str::split`
/// with a `char` pattern: `n` separators give `n + 1` pieces, some of which
/// may be empty).
pub open spec fn split_from(s: Seq<char>, c: char, i: int) -> Seq<Seq<char>>
    decreases s.len() - i,
{
    if 0 <= i <= s.len() {
        let j = find_from(s, c, i);
        if j >= s.len() {
            seq![s.subrange(i, s.len() as int)]
        } else if j >= i {
            seq![s.subrange(i, j)] + split_from(s, c, j + 1)
        } else {
            Seq::empty()
        }
    } else {
        Seq::empty()
    }
}

/// The pieces of `s` cut at every `c`.
pub open spec fn split_spec(s: Seq<char>, c: char) -> Seq<Seq<char>> {
    split_from(s, c, 0)
}

/// The pieces of `s` cut at every `c`, as owned strings.
pub fn split_char(s: &str, c: char) -> (r: Vec<String>)
    ensures
        r.deep_view() == split_spec(s@, c),
{
    let v = chars_of(s);
    let n = v.len();
    let mut out: Vec<String> = Vec::new();
    let mut i: usize = 0;
    loop
        invariant
            v@ == s@,
            n == v@.len(),
            0 <= i <= n,
            split_spec(s@, c) == out.deep_view() + split_from(s@, c, i as int),
        decreases n - i,
    {
        proof {
            lemma_find_from_bounds(s@, c, i as int);
        }
        let ghost i0 = i as int;
        let mut j: usize = i;
        while j < n && v[j] != c
            invariant
                v@ == s@,
                n == v@.len(),
                i0 <= j <= n,
                find_from(s@, c, i0) == find_from(s@, c, j as int),
            decreases n - j,
        {
            j = j + 1;
        }
        let piece: String = s.substring_char(i, j).to_owned();
        let ghost before = out.deep_view();
        out.push(piece);
        assert(out.deep_view() =~= before.push(s@.subrange(i0, j as int)));
        if j >= n {
            assert(before + split_from(s@, c, i0) =~= out.deep_view());
            return out;
        }
        assert(before + split_from(s@, c, i0) =~= out.deep_view() + split_from(
            s@,
            c,
            j as int + 1,
        ));
        i = j + 1;
    }
}

/// The decimal digit character for `d` (`d < 10`).
pub open spec fn digit_char(d: int) -> char {
    if d == 0 {
        '0'
    } else if d == 1 {
        '1'
    } else if d == 2 {
        '2'
    } else if d == 3 {
        '3'
    } else if d == 4 {
        '4'
    } else if d == 5 {
        '5'
    } else if d == 6 {
        '6'
    } else if d == 7 {
        '7'
    } else if d == 8 {
        '8'
    } else {
        '9'
    }
}

/// The decimal representation of `n`, without sign or leading zeros.
pub open spec fn dec(n: nat) -> Seq<char>
    decreases n,
{
    if n < 10 {
        seq![digit_char(n as int)]
    } else {
        dec(n / 10) + seq![digit_char((n % 10) as int)]
    }
}

/// The decimal representation of an integer, with a leading `-` when it is
/// negative (what `Display` prints for Rust's integer types).
pub open spec fn dec_int(i: int) -> Seq<char> {
    if i < 0 {
        seq!['-'] + dec((-i) as nat)
    } else {
        dec(i as nat)
    }
}

pub proof fn lemma_dec_len(n: nat)
    ensures
        dec(n).len() >= 1,
        n >= 10 ==> dec(n).len() >= 2,
    decreases n,
{
    if n >= 10 {
        lemma_dec_len(n / 10);
    }
}

/// Two numbers with the same decimal representation are equal.
pub proof fn lemma_dec_injective(a: nat, b: nat)
    requires
        dec(a) == dec(b),
    ensures
        a == b,
    decreases a + b,
{
    lemma_dec_len(a);
    lemma_dec_len(b);
    if a >= 10 && b >= 10 {
        let da = dec(a / 10);
        let db = dec(b / 10);
        assert(dec(a).drop_last() =~= da);
        assert(dec(b).drop_last() =~= db);
        assert(dec(a).last() == digit_char((a % 10) as int));
        assert(dec(b).last() == digit_char((b % 10) as int));
        lemma_dec_injective(a / 10, b / 10);
    } else if a >= 10 {
        assert(dec(b).len() == 1);
    } else if b >= 10 {
        assert(dec(a).len() == 1);
    } else {
        assert(dec(a)[0] == digit_char(a as int));
        assert(dec(b)[0] == digit_char(b as int));
    }
}

/// A decimal digit as a one-character string.
fn digit_str(d: u64) -> (s: &'static str)
    requires
        d < 10,
    ensures
        s@ == seq![digit_char(d as int)],
{
    if d == 0 {
        proof { reveal_strlit("0"); }
        "0"
    } else if d == 1 {
        proof { reveal_strlit("1"); }
        "1"
    } else if d == 2 {
        proof { reveal_strlit("2"); }
        "2"
    } else if d == 3 {
        proof { reveal_strlit("3"); }
        "3"
    } else if d == 4 {
        proof { reveal_strlit("4"); }
        "4"
    } else if d == 5 {
        proof { reveal_strlit("5"); }
        "5"
    } else if d == 6 {
        proof { reveal_strlit("6"); }
        "6"
    } else if d == 7 {
        proof { reveal_strlit("7"); }
        "7"
    } else if d == 8 {
        proof { reveal_strlit("8"); }
        "8"
    } else {
        proof { reveal_strlit("9"); }
        "9"
    }
}

/// Append the decimal representation of `n` to `out`.
pub fn push_decimal(out: &mut String, n: u64)
    ensures
        final(out)@ == old(out)@ + dec(n as nat),
    decreases n,
{
    if n >= 10 {
        push_decimal(out, n / 10);
    }
    out.append(digit_str(n % 10));
    assert(dec(n as nat) =~= if n < 10 {
        seq![digit_char(n as int)]
    } else {
        dec((n / 10) as nat) + seq![digit_char((n % 10) as int)]
    });
}

/// The decimal representation of `n`.
pub fn decimal(n: u64) -> (r: String)
    ensures
        r@ == dec(n as nat),
{
    let mut out = String::new();
    push_decimal(&mut out, n);
    assert(out@ =~= dec(n as nat));
    out
}

/// Append the decimal representation of a signed `n` to `out`.
pub fn push_decimal_i64(out: &mut String, n: i64)
    ensures
        final(out)@ == old(out)@ + dec_int(n as int),
{
    if n < 0 {
        proof { reveal_strlit("-"); }
        out.append("-");
        let m: u64 = if n == i64::MIN {
            9223372036854775808u64
        } else {
            (-n) as u64
        };
        let ghost mid = out@;
        push_decimal(out, m);
        assert(out@ =~= old(out)@ + dec_int(n as int));
    } else {
        push_decimal(out, n as u64);
    }
}

/// Value of a sequence of decimal digit characters.
pub open spec fn digits_value(ds: Seq<char>) -> int
    decreases ds.len(),
{
    if ds.len() == 0 {
        0
    } else {
        digits_value(ds.drop_last()) * 10 + (ds.last() as int - '0' as int)
    }
}

pub open spec fn is_digit(c: char) -> bool {
    '0' <= c && c <= '9'
}

pub open spec fn all_digits(ds: Seq<char>) -> bool {
    forall|k: int| 0 <= k < ds.len() ==> is_digit(#[trigger] ds[k])
}

/// What `u32::from_str` accepts: an optional `+` and one or more ASCII digits
/// whose value fits; `None` otherwise.
pub open spec fn parse_u32_spec(s: Seq<char>) -> Option<u32> {
    let body = if s.len() > 0 && s[0] == '+' {
        s.drop_first()
    } else {
        s
    };
    if body.len() > 0 && all_digits(body) && digits_value(body) <= u32::MAX {
        Some(digits_value(body) as u32)
    } else {
        None
    }
}

/// What `i32::from_str` accepts: an optional `+` or `-` and one or more ASCII
/// digits whose signed value fits; `None` otherwise.
pub open spec fn parse_i32_spec(s: Seq<char>) -> Option<i32> {
    let neg = s.len() > 0 && s[0] == '-';
    let body = if s.len() > 0 && (s[0] == '+' || s[0] == '-') {
        s.drop_first()
    } else {
        s
    };
    let v = if neg {
        -digits_value(body)
    } else {
        digits_value(body)
    };
    if body.len() > 0 && all_digits(body) && i32::MIN <= v <= i32::MAX {
        Some(v as i32)
    } else {
        None
    }
}

pub proof fn lemma_digits_value_nonneg(ds: Seq<char>)
    requires
        all_digits(ds),
    ensures
        digits_value(ds) >= 0,
    decreases ds.len(),
{
    if ds.len() > 0 {
        assert(is_digit(ds[ds.len() - 1]));
        lemma_digits_value_nonneg(ds.drop_last());
    }
}

pub proof fn lemma_digits_value_prefix_monotone(ds: Seq<char>, k: int)
    requires
        all_digits(ds),
        0 <= k <= ds.len(),
    ensures
        digits_value(ds.take(k)) <= digits_value(ds),
    decreases ds.len() - k,
{
    if k < ds.len() {
        let t = ds.take(k + 1);
        assert(t.drop_last() =~= ds.take(k));
        assert(is_digit(t.last()));
        lemma_digits_value_nonneg(ds.take(k));
        lemma_digits_value_prefix_monotone(ds, k + 1);
    } else {
        assert(ds.take(k) =~= ds);
    }
}

/// Reads the digits of `v[from..]` as an unsigned number, or `None` when a
/// character is not a digit, there are none, or the value exceeds `limit`.
fn digits_up_to(v: &Vec<char>, from: usize, limit: u64) -> (r: Option<u64>)
    requires
        from <= v@.len(),
        limit < 0x1_0000_0000_0000,
    ensures
        ({
            let body = v@.subrange(from as int, v@.len() as int);
            match r {
                Some(x) => body.len() > 0 && all_digits(body) && digits_value(body) == x
                    && x <= limit,
                None => !(body.len() > 0 && all_digits(body) && digits_value(body) <= limit),
            }
        }),
{
    let n = v.len();
    let ghost body = v@.subrange(from as int, n as int);
    if from >= n {
        return None;
    }
    let mut acc: u64 = 0;
    let mut i: usize = from;
    while i < n
        invariant
            n == v@.len(),
            from <= i <= n,
            limit < 0x1_0000_0000_0000,
            body == v@.subrange(from as int, n as int),
            all_digits(body.take(i - from)),
            digits_value(body.take(i - from)) == acc,
            acc <= limit,
        decreases n - i,
    {
        let c = v[i];
        if !('0' <= c && c <= '9') {
            assert(!is_digit(body[i - from]));
            return None;
        }
        let d: u64 = (c as u32 - '0' as u32) as u64;
        let ghost t = body.take(i + 1 - from);
        assert(t.drop_last() =~= body.take(i - from));
        assert(t.last() == c);
        assert(all_digits(t)) by {
            assert forall|k: int| 0 <= k < t.len() implies is_digit(#[trigger] t[k]) by {
                if k < t.len() - 1 {
                    assert(t[k] == body.take(i - from)[k]);
                }
            }
        }
        let next = acc * 10 + d;
        if next > limit {
            proof {
                if all_digits(body) {
                    lemma_digits_value_prefix_monotone(body, i + 1 - from);
                }
            }
            return None;
        }
        acc = next;
        i = i + 1;
    }
    assert(body.take(n - from) =~= body);
    Some(acc)
}

/// `u32::from_str` on `s`.
pub fn parse_u32(s: &str) -> (r: Option<u32>)
    ensures
        r == parse_u32_spec(s@),
{
    let v = chars_of(s);
    let start: usize = if v.len() > 0 && v[0] == '+' {
        1
    } else {
        0
    };
    assert(v@.subrange(start as int, v@.len() as int) =~= (if s@.len() > 0 && s@[0] == '+' {
        s@.drop_first()
    } else {
        s@
    }));
    match digits_up_to(&v, start, 0xffff_ffff) {
        Some(x) => Some(x as u32),
        None => None,
    }
}

/// `i32::from_str` on `s`.
pub fn parse_i32(s: &str) -> (r: Option<i32>)
    ensures
        r == parse_i32_spec(s@),
{
    let v = chars_of(s);
    let neg = v.len() > 0 && v[0] == '-';
    let start: usize = if v.len() > 0 && (v[0] == '+' || v[0] == '-') {
        1
    } else {
        0
    };
    let ghost body = v@.subrange(start as int, v@.len() as int);
    assert(body =~= (if s@.len() > 0 && (s@[0] == '+' || s@[0] == '-') {
        s@.drop_first()
    } else {
        s@
    }));
    let limit: u64 = if neg {
        0x8000_0000
    } else {
        0x7fff_ffff
    };
    match digits_up_to(&v, start, limit) {
        Some(x) => {
            if neg {
                Some((0 - (x as i64)) as i32)
            } else {
                Some(x as i32)
            }
        },
        None => None,
    }
}

/// ASCII lower-casing of one character; other characters are unchanged.
pub open spec fn ascii_lower(c: char) -> char {
    if 'A' <= c && c <= 'Z' {
        ((c as u32) + 32) as char
    } else {
        c
    }
}

/// Whether two character sequences are equal up to ASCII case
/// (`str::eq_ignore_ascii_case`).
pub open spec fn eq_ignore_ascii_case_spec(a: Seq<char>, b: Seq<char>) -> bool {
    a.len() == b.len() && forall|k: int|
        0 <= k < a.len() ==> ascii_lower(#[trigger] a[k]) == ascii_lower(b[k])
}

fn lower_char(c: char) -> (r: char)
    ensures
        r == ascii_lower(c),
{
    if 'A' <= c && c <= 'Z' {
        ((c as u8) + 32) as char
    } else {
        c
    }
}

/// Whether `a` and `b` are equal up to ASCII case.
pub fn eq_ignore_ascii_case(a: &str, b: &str) -> (r: bool)
    ensures
        r == eq_ignore_ascii_case_spec(a@, b@),
{
    let va = chars_of(a);
    let vb = chars_of(b);
    if va.len() != vb.len() {
        return false;
    }
    let n = va.len();
    let mut i: usize = 0;
    while i < n
        invariant
            va@ == a@,
            vb@ == b@,
            n == va@.len(),
            n == vb@.len(),
            0 <= i <= n,
            forall|k: int| 0 <= k < i ==> ascii_lower(#[trigger] a@[k]) == ascii_lower(b@[k]),
        decreases n - i,
    {
        if lower_char(va[i]) != lower_char(vb[i]) {
            return false;
        }
        i = i + 1;
    }
    true
}

/// Strict lexicographic order on character sequences, which is the order of
/// `str`'s `Ord` (UTF-8 preserves code point order).
pub open spec fn lex_lt(a: Seq<char>, b: Seq<char>) -> bool
    decreases a.len(),
{
    if a.len() == 0 {
        b.len() > 0
    } else if b.len() == 0 {
        false
    } else if a[0] != b[0] {
        a[0] < b[0]
    } else {
        lex_lt(a.drop_first(), b.drop_first())
    }
}

pub proof fn lemma_lex_irreflexive(a: Seq<char>)
    ensures
        !lex_lt(a, a),
    decreases a.len(),
{
    if a.len() > 0 {
        lemma_lex_irreflexive(a.drop_first());
    }
}

pub proof fn lemma_lex_total(a: Seq<char>, b: Seq<char>)
    ensures
        a == b || lex_lt(a, b) || lex_lt(b, a),
        !(lex_lt(a, b) && lex_lt(b, a)),
    decreases a.len(),
{
    if a.len() > 0 && b.len() > 0 && a[0] == b[0] {
        lemma_lex_total(a.drop_first(), b.drop_first());
        if a.drop_first() == b.drop_first() {
            assert(a =~= seq![a[0]] + a.drop_first());
            assert(b =~= seq![b[0]] + b.drop_first());
        }
    } else if a.len() == 0 && b.len() == 0 {
        assert(a =~= b);
    }
}

pub proof fn lemma_lex_transitive(a: Seq<char>, b: Seq<char>, c: Seq<char>)
    requires
        lex_lt(a, b),
        lex_lt(b, c),
    ensures
        lex_lt(a, c),
    decreases a.len(),
{
    if a.len() > 0 && b.len() > 0 && c.len() > 0 && a[0] == b[0] && b[0] == c[0] {
        lemma_lex_transitive(a.drop_first(), b.drop_first(), c.drop_first());
    }
}

/// Whether `a` comes strictly before `b`.
pub fn chars_lt(a: &Vec<char>, b: &Vec<char>) -> (r: bool)
    ensures
        r == lex_lt(a@, b@),
{
    let mut i: usize = 0;
    assert(a@.skip(0) =~= a@);
    assert(b@.skip(0) =~= b@);
    while i < a.len() && i < b.len() && a[i] == b[i]
        invariant
            0 <= i <= a@.len(),
            i <= b@.len(),
            lex_lt(a@, b@) == lex_lt(a@.skip(i as int), b@.skip(i as int)),
        decreases a@.len() - i,
    {
        assert(a@.skip(i as int).drop_first() =~= a@.skip(i + 1));
        assert(b@.skip(i as int).drop_first() =~= b@.skip(i + 1));
        i = i + 1;
    }
    if i == a.len() {
        i < b.len()
    } else if i == b.len() {
        false
    } else {
        a[i] < b[i]
    }
}

/// A sequence of strings in strictly increasing order (so without repeats).
pub open spec fn strictly_sorted(v: Seq<Seq<char>>) -> bool {
    forall|i: int, j: int| 0 <= i < j < v.len() ==> lex_lt(#[trigger] v[i], #[trigger] v[j])
}

/// Insert `s` into the strictly sorted `v`, unless it is already there.
fn insert_sorted(v: &mut Vec<String>, s: String)
    requires
        strictly_sorted(old(v).deep_view()),
    ensures
        strictly_sorted(final(v).deep_view()),
        final(v).deep_view().to_set() == old(v).deep_view().to_set().insert(s@),
{
    let sc = chars_of(s.as_str());
    let n = v.len();
    let mut k: usize = 0;
    let ghost dv = v.deep_view();
    while k < n && chars_lt(&chars_of(v[k].as_str()), &sc)
        invariant
            n == v@.len(),
            dv == v.deep_view(),
            dv.len() == n,
            sc@ == s@,
            0 <= k <= n,
            forall|j: int| 0 <= j < k ==> lex_lt(#[trigger] dv[j], s@),
        decreases n - k,
    {
        k = k + 1;
    }
    if k < n {
        let here = chars_of(v[k].as_str());
        if !chars_lt(&sc, &here) {
            proof {
                lemma_lex_total(dv[k as int], s@);
            }
            assert(dv[k as int] == s@);
            assert(dv.to_set().insert(s@) =~= dv.to_set()) by {
                assert(dv.to_set().contains(dv[k as int]));
            }
            return;
        }
    }
    // every element from k on is strictly after `s`
    assert forall|j: int| k <= j < n implies lex_lt(s@, #[trigger] dv[j]) by {
        if j == k {
            lemma_lex_total(dv[k as int], s@);
        } else {
            lemma_lex_total(dv[k as int], s@);
            lemma_lex_transitive(s@, dv[k as int], dv[j]);
        }
    }
    v.insert(k, s);
    let ghost nv = v.deep_view();
    assert(nv =~= dv.insert(k as int, s@));
    assert(strictly_sorted(nv)) by {
        assert forall|i: int, j: int| 0 <= i < j < nv.len() implies lex_lt(
            #[trigger] nv[i],
            #[trigger] nv[j],
        ) by {
            if j < k {
            } else if j == k {
            } else if i < k {
                lemma_lex_transitive(dv[i], s@, dv[j - 1]);
            } else if i == k {
            } else {
                assert(lex_lt(dv[i - 1], dv[j - 1]));
            }
        }
    }
    assert(nv.to_set() =~= dv.to_set().insert(s@)) by {
        assert forall|x: Seq<char>| nv.to_set().contains(x) implies dv.to_set().insert(
            s@,
        ).contains(x) by {
            let j = choose|j: int| 0 <= j < nv.len() && nv[j] == x;
            if j < k {
                assert(dv[j] == x);
            } else if j > k {
                assert(dv[j - 1] == x);
            }
        }
        assert forall|x: Seq<char>| dv.to_set().insert(s@).contains(x) implies nv.to_set().contains(
            x,
        ) by {
            if x == s@ {
                assert(nv[k as int] == x);
            } else {
                let j = choose|j: int| 0 <= j < dv.len() && dv[j] == x;
                if j < k {
                    assert(nv[j] == x);
                } else {
                    assert(nv[j + 1] == x);
                }
            }
        }
    }
}

/// The distinct strings of `items`, in increasing order (what sorting and
/// then removing adjacent repeats gives).
pub fn sorted_distinct(items: Vec<String>) -> (r: Vec<String>)
    ensures
        strictly_sorted(r.deep_view()),
        r.deep_view().to_set() == items.deep_view().to_set(),
{
    let mut out: Vec<String> = Vec::new();
    let ghost all = items.deep_view();
    assert(out.deep_view().to_set() =~= all.take(0).to_set());
    for s in it: items.into_iter()
        invariant
            it.seq() =~= items@,
            all == items.deep_view(),
            strictly_sorted(out.deep_view()),
            out.deep_view().to_set() == all.take(it.index() as int).to_set(),
    {
        let ghost i = it.index();
        insert_sorted(&mut out, s);
        assert(all.take(i + 1) =~= all.take(i as int).push(s@));
        assert(all.take(i + 1).to_set() =~= all.take(i as int).to_set().insert(s@)) by {
            Seq::lemma_to_set_insert_commutes(all.take(i as int), s@);
            assert(all.take(i as int).push(s@) =~= all.take(i as int) + seq![s@]);
        }
    }
    assert(all.take(all.len() as int) =~= all);
    out
}

/// The strings of `ps` with `sep` between each two neighbours (`join`).
pub open spec fn join_spec(ps: Seq<Seq<char>>, sep: Seq<char>) -> Seq<char>
    decreases ps.len(),
{
    if ps.len() == 0 {
        Seq::empty()
    } else if ps.len() == 1 {
        ps[0]
    } else {
        join_spec(ps.drop_last(), sep) + sep + ps.last()
    }
}

/// The strings of `ps`, separated by `sep`.
pub fn join(ps: &Vec<String>, sep: &str) -> (r: String)
    ensures
        r@ == join_spec(ps.deep_view(), sep@),
{
    let mut out = String::new();
    let n = ps.len();
    let ghost dv = ps.deep_view();
    let mut i: usize = 0;
    while i < n
        invariant
            n == ps@.len(),
            dv == ps.deep_view(),
            0 <= i <= n,
            out@ == join_spec(dv.take(i as int), sep@),
        decreases n - i,
    {
        assert(dv.take(i + 1).drop_last() =~= dv.take(i as int));
        if i > 0 {
            out.append(sep);
        }
        out.append(ps[i].as_str());
        assert(dv.take(i + 1).last() == ps[i as int]@);
        if i == 0 {
            assert(out@ =~= join_spec(dv.take(1), sep@));
        }
        i = i + 1;
    }
    assert(dv.take(n as int) =~= dv);
    out
}

/// `s` with every leading `"*."` removed (`trim_start_matches("*.")`).
pub open spec fn strip_star_dot(s: Seq<char>) -> Seq<char>
    decreases s.len(),
{
    if s.len() >= 2 && s[0] == '*' && s[1] == '.' {
        strip_star_dot(s.skip(2))
    } else {
        s
    }
}

/// `s` with every leading `"*."` removed.
pub fn trim_star_dot(s: &str) -> (r: &str)
    ensures
        r@ == strip_star_dot(s@),
{
    let v = chars_of(s);
    let n = v.len();
    let mut i: usize = 0;
    assert(s@.skip(0) =~= s@);
    while i < n && n - i >= 2 && v[i] == '*' && v[i + 1] == '.'
        invariant
            v@ == s@,
            n == v@.len(),
            0 <= i <= n,
            strip_star_dot(s@) == strip_star_dot(s@.skip(i as int)),
        decreases n - i,
    {
        assert(s@.skip(i as int).skip(2) =~= s@.skip(i + 2));
        i = i + 2;
    }
    assert(s@.skip(i as int) =~= s@.subrange(i as int, n as int));
    s.substring_char(i, n)
}

/// What `str::to_lowercase` returns for a string: its lower-case form under
/// Unicode's case mapping.
pub uninterp spec fn lowercase(s: Seq<char>) -> Seq<char>;

/// Whether every character of `s` is ASCII.
pub open spec fn is_ascii_seq(s: Seq<char>) -> bool {
    forall|i: int| 0 <= i < s.len() ==> s[i] < '\u{80}'
}

/// `str::to_lowercase`: the contract says that the result is the lower-case
/// form of the argument, a function of it alone, and that on ASCII text
/// this form maps `A`-`Z` to `a`-`z` and keeps every other character. What
/// the form is beyond ASCII (Unicode's tables, with the context rule for a
/// final sigma) is left unsaid.
#[verifier::external_body]
pub(crate) fn to_lowercase(s: &str) -> (r: String)
    ensures
        r@ == lowercase(s@),
        is_ascii_seq(s@) ==> r@ == s@.map_values(|c: char| ascii_lower(c)),
{
    s.to_lowercase()
}

/// The concatenation `a + b` as a new string.
pub fn concat(a: &str, b: &str) -> (r: String)
    ensures
        r@ == a@ + b@,
{
    let mut out = a.to_owned();
    out.append(b);
    out
}

/// Whether `a` and `b` hold the same characters.
pub fn str_eq(a: &str, b: &str) -> (r: bool)
    ensures
        r == (a@ == b@),
{
    let va = chars_of(a);
    let vb = chars_of(b);
    if va.len() != vb.len() {
        return false;
    }
    let n = va.len();
    let mut i: usize = 0;
    while i < n
        invariant
            va@ == a@,
            vb@ == b@,
            n == va@.len(),
            n == vb@.len(),
            0 <= i <= n,
            forall|k: int| 0 <= k < i ==> a@[k] == b@[k],
        decreases n - i,
    {
        if va[i] != vb[i] {
            return false;
        }
        i = i + 1;
    }
    assert(a@ =~= b@);
    true
}

/// Whether `s` holds the character `c`.
pub fn contains_char(s: &str, c: char) -> (r: bool)
    ensures
        r == s@.contains(c),
{
    let v = chars_of(s);
    let n = v.len();
    let mut i: usize = 0;
    while i < n
        invariant
            v@ == s@,
            n == v@.len(),
            0 <= i <= n,
            forall|k: int| 0 <= k < i ==> s@[k] != c,
        decreases n - i,
    {
        if v[i] == c {
            return true;
        }
        i = i + 1;
    }
    false
}

/// Whether `pat` occurs in `s` at position `i`.
pub open spec fn occurs_at(s: Seq<char>, pat: Seq<char>, i: int) -> bool {
    0 <= i && i + pat.len() <= s.len() && s.subrange(i, i + pat.len()) == pat
}

/// Whether `pat` occurs somewhere in `s` (`str::contains` with a string
/// pattern).
pub open spec fn has_substring(s: Seq<char>, pat: Seq<char>) -> bool {
    exists|i: int| occurs_at(s, pat, i)
}

/// Whether `pat` occurs somewhere in `s`.
pub fn contains_str(s: &str, pat: &str) -> (r: bool)
    ensures
        r == has_substring(s@, pat@),
{
    let v = chars_of(s);
    let p = chars_of(pat);
    let n = v.len();
    let m = p.len();
    if m > n {
        assert(!has_substring(s@, pat@)) by {
            if has_substring(s@, pat@) {
                let i = choose|i: int| occurs_at(s@, pat@, i);
            }
        }
        return false;
    }
    let mut i: usize = 0;
    while i <= n - m
        invariant
            v@ == s@,
            p@ == pat@,
            n == v@.len(),
            m == p@.len(),
            m <= n,
            0 <= i <= n - m + 1,
            forall|k: int| 0 <= k < i ==> !occurs_at(s@, pat@, k),
        decreases n - m + 1 - i,
    {
        let mut j: usize = 0;
        while j < m && v[i + j] == p[j]
            invariant
                v@ == s@,
                p@ == pat@,
                n == v@.len(),
                m == p@.len(),
                i + m <= n,
                0 <= j <= m,
                forall|k: int| 0 <= k < j ==> s@[i + k] == pat@[k],
            decreases m - j,
        {
            j = j + 1;
        }
        if j == m {
            assert(s@.subrange(i as int, i + m) =~= pat@);
            assert(occurs_at(s@, pat@, i as int));
            return true;
        }
        assert(!occurs_at(s@, pat@, i as int)) by {
            if occurs_at(s@, pat@, i as int) {
                assert(s@.subrange(i as int, i + m)[j as int] == pat@[j as int]);
            }
        }
        i = i + 1;
    }
    assert(!has_substring(s@, pat@)) by {
        if has_substring(s@, pat@) {
            let k = choose|k: int| occurs_at(s@, pat@, k);
            assert(k < i);
        }
    }
    false
}

/// `find_from` stops at the first `c` from `i` on, or at the end.
pub proof fn lemma_find_from_exact(s: Seq<char>, c: char, i: int, j: int)
    requires
        0 <= i <= j <= s.len(),
        forall|k: int| i <= k < j ==> s[k] != c,
        j < s.len() ==> s[j] == c,
    ensures
        find_from(s, c, i) == j,
    decreases j - i,
{
    if i < j {
        lemma_find_from_exact(s, c, i + 1, j);
    }
}

/// Joining two or more strings is the first, the separator, and the join of
/// the rest.
pub proof fn lemma_join_front(ps: Seq<Seq<char>>, sep: Seq<char>)
    requires
        ps.len() >= 2,
    ensures
        join_spec(ps, sep) == ps[0] + sep + join_spec(ps.drop_first(), sep),
    decreases ps.len(),
{
    let rest = ps.drop_first();
    if ps.len() == 2 {
        assert(ps.drop_last() =~= seq![ps[0]]);
        assert(join_spec(ps.drop_last(), sep) == ps[0]);
        assert(rest =~= seq![ps[1]]);
        assert(join_spec(rest, sep) == rest[0]);
        assert(join_spec(ps, sep) == join_spec(ps.drop_last(), sep) + sep + ps.last());
    } else {
        let init = ps.drop_last();
        lemma_join_front(init, sep);
        assert(init.drop_first() =~= rest.drop_last());
        assert(rest.last() == ps.last());
        assert(join_spec(ps, sep) == join_spec(init, sep) + sep + ps.last());
        assert(join_spec(rest, sep) == join_spec(rest.drop_last(), sep) + sep + rest.last());
        assert(join_spec(ps, sep) =~= ps[0] + sep + join_spec(rest, sep));
    }
}

/// Cutting the join of comma-free pieces at the separator character gives
/// the pieces back, wherever the join starts in `s`.
proof fn lemma_split_join_at(ps: Seq<Seq<char>>, c: char, pre: Seq<char>)
    requires
        ps.len() > 0,
        forall|i: int| 0 <= i < ps.len() ==> !(#[trigger] ps[i]).contains(c),
    ensures
        split_from(pre + join_spec(ps, seq![c]), c, pre.len() as int) == ps,
    decreases ps.len(),
{
    let sep = seq![c];
    let d0 = ps[0];
    let p = pre.len() as int;
    if ps.len() == 1 {
        let s = pre + d0;
        assert(join_spec(ps, sep) == d0);
        assert forall|k: int| p <= k < s.len() implies s[k] != c by {
            assert(s[k] == d0[k - p]);
        }
        lemma_find_from_exact(s, c, p, s.len() as int);
        assert(s.subrange(p, s.len() as int) =~= d0);
        assert(split_from(s, c, p) =~= ps);
    } else {
        lemma_join_front(ps, sep);
        let rest = ps.drop_first();
        let pre2 = pre + d0 + sep;
        let s = pre + join_spec(ps, sep);
        assert(s =~= pre2 + join_spec(rest, sep));
        let j = p + d0.len();
        assert forall|k: int| p <= k < j implies s[k] != c by {
            assert(s[k] == d0[k - p]);
        }
        assert(s[j] == c);
        lemma_find_from_exact(s, c, p, j);
        assert(s.subrange(p, j) =~= d0);
        assert forall|i: int| 0 <= i < rest.len() implies !(#[trigger] rest[i]).contains(c) by {
            assert(rest[i] == ps[i + 1]);
        }
        lemma_split_join_at(rest, c, pre2);
        assert(pre2.len() == j + 1);
        assert(split_from(s, c, p) =~= seq![d0] + rest);
        assert(seq![d0] + rest =~= ps);
    }
}

/// Cutting the join of pieces that hold no `c` at `c` gives the pieces back.
pub proof fn lemma_split_join(ps: Seq<Seq<char>>, c: char)
    requires
        ps.len() > 0,
        forall|i: int| 0 <= i < ps.len() ==> !(#[trigger] ps[i]).contains(c),
    ensures
        split_spec(join_spec(ps, seq![c]), c) == ps,
{
    lemma_split_join_at(ps, c, Seq::empty());
    assert(Seq::<char>::empty() + join_spec(ps, seq![c]) =~= join_spec(ps, seq![c]));
}

/// `s` with every line feed written as a carriage return and a line feed
/// (`str::replace("\n", "\r\n")`).
pub open spec fn crlf(s: Seq<char>) -> Seq<char>
    decreases s.len(),
{
    if s.len() == 0 {
        Seq::empty()
    } else if s.last() == '\n' {
        crlf(s.drop_last()) + seq!['\r', '\n']
    } else {
        crlf(s.drop_last()).push(s.last())
    }
}

/// Rewriting line ends works piece by piece.
pub proof fn lemma_crlf_concat(a: Seq<char>, b: Seq<char>)
    ensures
        crlf(a + b) == crlf(a) + crlf(b),
    decreases b.len(),
{
    if b.len() == 0 {
        assert(a + b =~= a);
        assert(crlf(a) + crlf(b) =~= crlf(a));
    } else {
        lemma_crlf_concat(a, b.drop_last());
        assert((a + b).drop_last() =~= a + b.drop_last());
        assert((a + b).last() == b.last());
        if b.last() == '\n' {
            assert(crlf(a) + crlf(b) =~= crlf(a) + crlf(b.drop_last()) + seq!['\r', '\n']);
        } else {
            assert(crlf(a) + crlf(b) =~= (crlf(a) + crlf(b.drop_last())).push(b.last()));
        }
    }
}

/// Text without a line feed is left as it is.
pub proof fn lemma_crlf_no_lf(s: Seq<char>)
    requires
        !s.contains('\n'),
    ensures
        crlf(s) == s,
    decreases s.len(),
{
    if s.len() > 0 {
        assert(s[s.len() - 1] == s.last());
        assert(!s.drop_last().contains('\n')) by {
            if s.drop_last().contains('\n') {
                let i = choose|i: int| 0 <= i < s.drop_last().len() && s.drop_last()[i] == '\n';
                assert(s[i] == '\n');
            }
        }
        lemma_crlf_no_lf(s.drop_last());
        assert(s.drop_last().push(s.last()) =~= s);
    }
}

/// The decimal representation of `n` is a non-empty run of digits whose
/// value is `n`.
pub proof fn lemma_dec_digits(n: nat)
    ensures
        dec(n).len() > 0,
        all_digits(dec(n)),
        digits_value(dec(n)) == n,
    decreases n,
{
    let d = (n % 10) as int;
    assert(is_digit(digit_char(d)) && digit_char(d) as int - '0' as int == d);
    if n >= 10 {
        lemma_dec_digits(n / 10);
        let s = dec(n);
        assert(s.drop_last() =~= dec(n / 10));
        assert(s.last() == digit_char(d));
        assert forall|k: int| 0 <= k < s.len() implies is_digit(#[trigger] s[k]) by {
            if k < s.len() - 1 {
                assert(s[k] == dec(n / 10)[k]);
            }
        }
        assert(digits_value(s) == digits_value(s.drop_last()) * 10 + (s.last() as int - '0' as int));
        assert(digits_value(s) == (n / 10) as int * 10 + d);
    } else {
        let s = dec(n);
        assert(s.drop_last() =~= Seq::<char>::empty());
        assert(s.last() == digit_char(d));
        assert(digits_value(s) == digits_value(s.drop_last()) * 10 + (s.last() as int - '0' as int));
    }
}

/// `u32::from_str` reads a decimal representation back.
pub proof fn lemma_parse_dec(n: nat)
    requires
        n <= u32::MAX,
    ensures
        parse_u32_spec(dec(n)) == Some(n as u32),
{
    lemma_dec_digits(n);
    assert(is_digit(dec(n)[0]));
}

/// A decimal representation holds no character other than digits.
pub proof fn lemma_dec_lacks(n: nat, c: char)
    requires
        !is_digit(c),
    ensures
        !dec(n).contains(c),
{
    lemma_dec_digits(n);
    if dec(n).contains(c) {
        let k = choose|k: int| 0 <= k < dec(n).len() && dec(n)[k] == c;
        assert(is_digit(dec(n)[k]));
    }
}

/// A character that neither part holds is not in their concatenation.
pub proof fn lemma_concat_lacks(a: Seq<char>, b: Seq<char>, c: char)
    requires
        !a.contains(c),
        !b.contains(c),
    ensures
        !(a + b).contains(c),
{
    if (a + b).contains(c) {
        let k = choose|k: int| 0 <= k < (a + b).len() && (a + b)[k] == c;
        if k < a.len() {
            assert(a[k] == c);
        } else {
            assert(b[k - a.len()] == c);
        }
    }
}

} // verus!
