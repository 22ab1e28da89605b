//! Character- and byte-level helpers: URL basenames, path joining, decimal
//! parsing and formatting. These back the filename derivation and the header
//! parsing of the probe.

use vstd::prelude::*;
use vstd::string::StringSliceAdditionalSpecFns;

verus! {

/// `s` begins with the prefix `p`.
pub open spec fn starts_with<A>(s: Seq<A>, p: Seq<A>) -> bool {
    s.len() >= p.len() && s.subrange(0, p.len() as int) == p
}

/// `s` with every trailing `/` removed.
pub open spec fn trim_end_slashes(s: Seq<char>) -> Seq<char>
    decreases s.len(),
{
    if s.len() > 0 && s.last() == '/' {
        trim_end_slashes(s.drop_last())
    } else {
        s
    }
}

/// The suffix of `s` after its last `/`; all of `s` when it has none.
pub open spec fn after_last_slash(s: Seq<char>) -> Seq<char>
    decreases s.len(),
{
    if s.len() == 0 {
        s
    } else if s.last() == '/' {
        Seq::empty()
    } else {
        after_last_slash(s.drop_last()).push(s.last())
    }
}

/// The basename a URL path yields: strip trailing slashes, take what follows
/// the last remaining slash, and fall back to `download` when that is empty.
pub open spec fn spec_url_path_basename(s: Seq<char>) -> Seq<char> {
    let base = after_last_slash(trim_end_slashes(s));
    if base.len() == 0 {
        "download"@
    } else {
        base
    }
}

proof fn lemma_trim_end_slashes(s: Seq<char>, e: int)
    requires
        0 <= e <= s.len(),
        forall|k: int| e <= k < s.len() ==> s[k] == '/',
        e > 0 ==> s[e - 1] != '/',
    ensures
        trim_end_slashes(s) == s.subrange(0, e),
    decreases s.len(),
{
    if s.len() > 0 && s.last() == '/' {
        lemma_trim_end_slashes(s.drop_last(), e);
        assert(s.drop_last().subrange(0, e) =~= s.subrange(0, e));
    } else {
        assert(s.subrange(0, e) =~= s);
    }
}

proof fn lemma_after_last_slash(s: Seq<char>, b: int)
    requires
        0 <= b <= s.len(),
        forall|k: int| b <= k < s.len() ==> s[k] != '/',
        b > 0 ==> s[b - 1] == '/',
    ensures
        after_last_slash(s) == s.subrange(b, s.len() as int),
    decreases s.len(),
{
    if s.len() == 0 {
        assert(s.subrange(0, 0) =~= s);
    } else if s.last() == '/' {
        assert(b == s.len());
        assert(s.subrange(b, s.len() as int) =~= Seq::<char>::empty());
    } else {
        lemma_after_last_slash(s.drop_last(), b);
        assert(s.subrange(b, s.len() as int) =~= s.drop_last().subrange(
            b,
            s.drop_last().len() as int,
        ).push(s.last()));
    }
}

/// Last path component of a URL path: trailing slashes are ignored, and an
/// empty result gives the fixed name `download`.
pub fn url_path_basename(path: &str) -> (r: String)
    ensures
        r@ == spec_url_path_basename(path@),
{
    let n = path.unicode_len();
    let mut e: usize = n;
    while e > 0 && path.get_char(e - 1) == '/'
        invariant
            0 <= e <= n,
            n == path@.len(),
            forall|k: int| e <= k < n ==> path@[k] == '/',
        decreases e,
    {
        e = e - 1;
    }
    proof {
        lemma_trim_end_slashes(path@, e as int);
    }
    let mut b: usize = e;
    while b > 0 && path.get_char(b - 1) != '/'
        invariant
            0 <= b <= e <= n,
            n == path@.len(),
            forall|k: int| b <= k < e ==> path@[k] != '/',
        decreases b,
    {
        b = b - 1;
    }
    proof {
        lemma_after_last_slash(path@.subrange(0, e as int), b as int);
        assert(trim_end_slashes(path@).subrange(b as int, e as int) == path@.subrange(0, e as int).subrange(b as int, e as int));
    }
    if b == e {
        let d = "download";
        String::from_str(d)
    } else {
        let base = path.substring_char(b, e);
        proof {
            assert(path@.subrange(0, e as int).subrange(b as int, e as int) =~= path@.subrange(
                b as int,
                e as int,
            ));
        }
        base.to_owned()
    }
}

/// The characters the header parser treats as whitespace (the ASCII ones
/// `str::trim` removes).
pub open spec fn is_ws_char(c: char) -> bool {
    c == ' ' || c == '\t' || c == '\n' || c == '\r' || c == '\u{b}' || c == '\u{c}'
}

/// `s` with leading whitespace removed.
pub open spec fn trim_front_chars(s: Seq<char>) -> Seq<char>
    decreases s.len(),
{
    if s.len() > 0 && is_ws_char(s[0]) {
        trim_front_chars(s.drop_first())
    } else {
        s
    }
}

/// `s` with trailing whitespace removed.
pub open spec fn trim_back_chars(s: Seq<char>) -> Seq<char>
    decreases s.len(),
{
    if s.len() > 0 && is_ws_char(s.last()) {
        trim_back_chars(s.drop_last())
    } else {
        s
    }
}

/// `s` with whitespace removed from both ends.
pub open spec fn spec_trim(s: Seq<char>) -> Seq<char> {
    trim_back_chars(trim_front_chars(s))
}

proof fn lemma_trim_front_chars(s: Seq<char>, b: int)
    requires
        0 <= b <= s.len(),
        forall|k: int| 0 <= k < b ==> is_ws_char(s[k]),
        b < s.len() ==> !is_ws_char(s[b]),
    ensures
        trim_front_chars(s) == s.subrange(b, s.len() as int),
    decreases s.len(),
{
    if s.len() > 0 && is_ws_char(s[0]) {
        assert(b > 0);
        lemma_trim_front_chars(s.drop_first(), b - 1);
        assert(s.drop_first().subrange(b - 1, s.drop_first().len() as int) =~= s.subrange(
            b,
            s.len() as int,
        ));
    } else {
        assert(b == 0);
        assert(s.subrange(0, s.len() as int) =~= s);
    }
}

proof fn lemma_trim_back_chars(s: Seq<char>, e: int)
    requires
        0 <= e <= s.len(),
        forall|k: int| e <= k < s.len() ==> is_ws_char(s[k]),
        e > 0 ==> !is_ws_char(s[e - 1]),
    ensures
        trim_back_chars(s) == s.subrange(0, e),
    decreases s.len(),
{
    if s.len() > 0 && is_ws_char(s.last()) {
        assert(e < s.len());
        lemma_trim_back_chars(s.drop_last(), e);
        assert(s.drop_last().subrange(0, e) =~= s.subrange(0, e));
    } else {
        assert(e == s.len());
        assert(s.subrange(0, s.len() as int) =~= s);
    }
}

/// Whether an executable character is header whitespace.
fn is_ws_exec(c: char) -> (r: bool)
    ensures
        r == is_ws_char(c),
{
    c == ' ' || c == '\t' || c == '\n' || c == '\r' || c == '\u{b}' || c == '\u{c}'
}

/// `s` with whitespace removed from both ends.
pub fn str_trim(s: &str) -> (r: &str)
    ensures
        r@ == spec_trim(s@),
{
    let n = s.unicode_len();
    let mut b: usize = 0;
    while b < n && is_ws_exec(s.get_char(b))
        invariant
            0 <= b <= n,
            n == s@.len(),
            forall|k: int| 0 <= k < b ==> is_ws_char(s@[k]),
        decreases n - b,
    {
        b = b + 1;
    }
    let mut e: usize = n;
    while e > b && is_ws_exec(s.get_char(e - 1))
        invariant
            b <= e <= n,
            n == s@.len(),
            forall|k: int| 0 <= k < b ==> is_ws_char(s@[k]),
            forall|k: int| e <= k < n ==> is_ws_char(s@[k]),
        decreases e,
    {
        e = e - 1;
    }
    proof {
        lemma_trim_front_chars(s@, b as int);
        let f = s@.subrange(b as int, n as int);
        lemma_trim_back_chars(f, e as int - b as int);
        assert(f.subrange(0, e as int - b as int) =~= s@.subrange(b as int, e as int));
    }
    s.substring_char(b, e)
}

/// Index of the first occurrence of `c` in `s`, or the length when absent.
pub open spec fn first_idx(s: Seq<char>, c: char) -> int
    decreases s.len(),
{
    if s.len() == 0 {
        0
    } else if s[0] == c {
        0
    } else {
        1 + first_idx(s.drop_first(), c)
    }
}

/// `first_idx` is the first occurrence indeed.
pub proof fn lemma_first_idx(s: Seq<char>, c: char)
    ensures
        0 <= first_idx(s, c) <= s.len(),
        forall|k: int| 0 <= k < first_idx(s, c) ==> s[k] != c,
        first_idx(s, c) < s.len() ==> s[first_idx(s, c)] == c,
    decreases s.len(),
{
    if s.len() > 0 && s[0] != c {
        lemma_first_idx(s.drop_first(), c);
        assert forall|k: int| 0 <= k < first_idx(s, c) implies s[k] != c by {
            if k > 0 {
                assert(s.drop_first()[k - 1] == s[k]);
            }
        }
        if first_idx(s, c) < s.len() {
            assert(s.drop_first()[first_idx(s.drop_first(), c)] == s[first_idx(s, c)]);
        }
    }
}

/// Find the first occurrence of `c` in `s`; the length means it is absent.
pub fn find_char(s: &str, c: char) -> (r: usize)
    ensures
        r == first_idx(s@, c),
{
    proof {
        lemma_first_idx(s@, c);
    }
    let n = s.unicode_len();
    let mut i: usize = 0;
    while i < n && s.get_char(i) != c
        invariant
            0 <= i <= n,
            n == s@.len(),
            forall|k: int| 0 <= k < i ==> s@[k] != c,
        decreases n - i,
    {
        i = i + 1;
    }
    proof {
        if i < n {
            assert(s@[i as int] == c);
            if first_idx(s@, c) < i {
                assert(s@[first_idx(s@, c)] == c);
            }
        }
    }
    i
}

/// Whether `s` begins with `p`.
pub fn str_starts_with(s: &str, p: &str) -> (r: bool)
    ensures
        r == starts_with(s@, p@),
{
    let m = p.unicode_len();
    let n = s.unicode_len();
    if m > n {
        return false;
    }
    let mut i: usize = 0;
    while i < m
        invariant
            0 <= i <= m <= n,
            m == p@.len(),
            n == s@.len(),
            forall|k: int| 0 <= k < i ==> s@[k] == p@[k],
        decreases m - i,
    {
        if s.get_char(i) != p.get_char(i) {
            proof {
                if starts_with(s@, p@) {
                    assert(s@.subrange(0, m as int)[i as int] == p@[i as int]);
                }
            }
            return false;
        }
        i = i + 1;
    }
    proof {
        assert(s@.subrange(0, m as int) =~= p@);
    }
    true
}

/// ASCII-lowercased code of a character (uppercase letters gain 32).
pub open spec fn lower_code(c: char) -> int {
    if 65 <= c as int <= 90 {
        c as int + 32
    } else {
        c as int
    }
}

/// Case-insensitive equality of two character sequences, folding ASCII
/// letters only.
pub open spec fn eq_ci(a: Seq<char>, b: Seq<char>) -> bool {
    a.len() == b.len() && forall|i: int| 0 <= i < a.len() ==> lower_code(a[i]) == lower_code(b[i])
}

/// Case-insensitive comparison of two strings (ASCII folding).
pub fn str_eq_ci(a: &str, b: &str) -> (r: bool)
    ensures
        r == eq_ci(a@, b@),
{
    let n = a.unicode_len();
    if n != b.unicode_len() {
        return false;
    }
    let mut i: usize = 0;
    while i < n
        invariant
            0 <= i <= n,
            n == a@.len() == b@.len(),
            forall|k: int| 0 <= k < i ==> lower_code(a@[k]) == lower_code(b@[k]),
        decreases n - i,
    {
        let ca = a.get_char(i) as u32;
        let cb = b.get_char(i) as u32;
        let la = if 65 <= ca && ca <= 90 {
            ca + 32
        } else {
            ca
        };
        let lb = if 65 <= cb && cb <= 90 {
            cb + 32
        } else {
            cb
        };
        if la != lb {
            return false;
        }
        i = i + 1;
    }
    true
}

/// Numeric value of a decimal digit sequence (most significant first).
pub open spec fn dec_val(s: Seq<char>) -> int
    decreases s.len(),
{
    if s.len() == 0 {
        0
    } else {
        dec_val(s.drop_last()) * 10 + (s.last() as int - 48)
    }
}

/// Every character is a decimal digit.
pub open spec fn all_digits(s: Seq<char>) -> bool {
    forall|i: int| 0 <= i < s.len() ==> 48 <= (#[trigger] s[i]) as int <= 57
}

/// What parsing an unsigned decimal yields: an optional leading `+`, then at
/// least one digit, no other characters, and a value that fits.
pub open spec fn spec_parse_u64(s: Seq<char>) -> Option<u64> {
    let t = if s.len() > 0 && s[0] == '+' {
        s.drop_first()
    } else {
        s
    };
    if t.len() > 0 && all_digits(t) && dec_val(t) <= u64::MAX {
        Some(dec_val(t) as u64)
    } else {
        None
    }
}

proof fn lemma_dec_val_nonneg(s: Seq<char>)
    requires
        all_digits(s),
    ensures
        dec_val(s) >= 0,
    decreases s.len(),
{
    if s.len() > 0 {
        assert(forall|i: int|
            0 <= i < s.drop_last().len() ==> 48 <= (#[trigger] s.drop_last()[i]) as int <= 57);
        lemma_dec_val_nonneg(s.drop_last());
    }
}

proof fn lemma_dec_val_take_step(s: Seq<char>, i: int)
    requires
        0 <= i < s.len(),
    ensures
        dec_val(s.take(i + 1)) == dec_val(s.take(i)) * 10 + (s[i] as int - 48),
{
    assert(s.take(i + 1).drop_last() =~= s.take(i));
    assert(s.take(i + 1).last() == s[i]);
}

proof fn lemma_dec_val_grows(s: Seq<char>, i: int)
    requires
        all_digits(s),
        0 <= i <= s.len(),
    ensures
        dec_val(s) >= dec_val(s.take(i)),
    decreases s.len() - i,
{
    if i < s.len() {
        lemma_dec_val_take_step(s, i);
        lemma_dec_val_nonneg(s.take(i));
        assert(forall|k: int|
            0 <= k < s.take(i).len() ==> 48 <= (#[trigger] s.take(i)[k]) as int <= 57);
        lemma_dec_val_grows(s, i + 1);
        assert(dec_val(s.take(i + 1)) >= dec_val(s.take(i)));
    } else {
        assert(s.take(i) =~= s);
    }
}

/// Parse an unsigned 64-bit decimal as `str::parse::<u64>` accepts it: an
/// optional leading `+`, then only digits, rejecting empty input and values
/// over `u64::MAX`.
pub fn parse_u64_dec(s: &str) -> (r: Option<u64>)
    ensures
        r == spec_parse_u64(s@),
{
    let n = s.unicode_len();
    let start: usize = if n > 0 && s.get_char(0) == '+' {
        1
    } else {
        0
    };
    let ghost t = if s@.len() > 0 && s@[0] == '+' {
        s@.drop_first()
    } else {
        s@
    };
    proof {
        assert(t =~= s@.subrange(start as int, n as int));
    }
    if start == n {
        return None;
    }
    let mut value: u64 = 0;
    let mut i: usize = start;
    while i < n
        invariant
            start <= i <= n,
            n == s@.len(),
            start < n,
            t == (if s@.len() > 0 && s@[0] == '+' {
                s@.drop_first()
            } else {
                s@
            }),
            t == s@.subrange(start as int, n as int),
            forall|k: int| 0 <= k < i - start ==> 48 <= (#[trigger] t[k]) as int <= 57,
            value == dec_val(t.take(i as int - start as int)),
        decreases n - i,
    {
        let c = s.get_char(i) as u32;
        if c < 48 || c > 57 {
            proof {
                assert(t[i as int - start as int] == s@[i as int]);
            }
            return None;
        }
        let d: u64 = (c - 48) as u64;
        proof {
            lemma_dec_val_take_step(t, i as int - start as int);
        }
        if value > (u64::MAX - d) / 10 {
            proof {
                let j = i as int - start as int;
                vstd::arithmetic::div_mod::lemma_fundamental_div_mod(u64::MAX as int - d, 10);
                vstd::arithmetic::mul::lemma_mul_inequality(
                    (u64::MAX as int - d) / 10 + 1,
                    value as int,
                    10,
                );
                assert(dec_val(t.take(j + 1)) > u64::MAX);
                if all_digits(t) {
                    lemma_dec_val_grows(t, j + 1);
                }
            }
            return None;
        }
        value = value * 10 + d;
        i = i + 1;
    }
    proof {
        assert(t.take(n as int - start as int) =~= t);
    }
    Some(value)
}

/// The decimal digit character for a value below ten.
pub open spec fn digit_char(d: int) -> char {
    if d == 0 {
        '0'
    } else if d == 1 {
        '1'
    } else if d == 2 {
        '2'
    } else if d == 3 {
        '3'
    } else if d == 4 {
        '4'
    } else if d == 5 {
        '5'
    } else if d == 6 {
        '6'
    } else if d == 7 {
        '7'
    } else if d == 8 {
        '8'
    } else {
        '9'
    }
}

/// The decimal rendering of a non-negative number, most significant digit
/// first.
pub open spec fn dec_chars(n: int) -> Seq<char>
    decreases n,
{
    if n < 10 {
        seq![digit_char(n)]
    } else {
        dec_chars(n / 10).push(digit_char(n % 10))
    }
}

fn digit_str(d: u64) -> (r: &'static str)
    requires
        d < 10,
    ensures
        r@ =~= seq![digit_char(d as int)],
{
    let r: &'static str = if d == 0 {
        "0"
    } else if d == 1 {
        "1"
    } else if d == 2 {
        "2"
    } else if d == 3 {
        "3"
    } else if d == 4 {
        "4"
    } else if d == 5 {
        "5"
    } else if d == 6 {
        "6"
    } else if d == 7 {
        "7"
    } else if d == 8 {
        "8"
    } else {
        "9"
    };
    proof {
        reveal_strlit("0");
        reveal_strlit("1");
        reveal_strlit("2");
        reveal_strlit("3");
        reveal_strlit("4");
        reveal_strlit("5");
        reveal_strlit("6");
        reveal_strlit("7");
        reveal_strlit("8");
        reveal_strlit("9");
    }
    r
}

/// Render a number in decimal.
pub fn u64_to_string(n: u64) -> (r: String)
    ensures
        r@ == dec_chars(n as int),
    decreases n,
{
    if n < 10 {
        String::from_str(digit_str(n))
    } else {
        let mut s = u64_to_string(n / 10);
        s.append(digit_str(n % 10));
        proof {
            assert(s@ =~= dec_chars(n as int));
        }
        s
    }
}

/// Whether two string slices hold the same characters.
pub fn str_eq(a: &str, b: &str) -> (r: bool)
    ensures
        r == (a@ == b@),
{
    let ab = a.as_bytes();
    let bb = b.as_bytes();
    let n = ab.len();
    if n != bb.len() {
        return false;
    }
    let mut i: usize = 0;
    while i < n
        invariant
            0 <= i <= n,
            n == ab@.len() == bb@.len(),
            ab@ == a.spec_bytes(),
            bb@ == b.spec_bytes(),
            forall|k: int| 0 <= k < i ==> ab@[k] == bb@[k],
        decreases n - i,
    {
        if ab[i] != bb[i] {
            return false;
        }
        i = i + 1;
    }
    proof {
        assert(ab@ =~= bb@);
        vstd::utf8::encode_utf8_decode_utf8(a@);
        vstd::utf8::encode_utf8_decode_utf8(b@);
    }
    true
}

/// What joining a directory and a filename with `/` yields: the filename alone
/// when the directory is empty, and no doubled separator when the directory
/// already ends in one.
pub open spec fn spec_join_path(dir: Seq<char>, file: Seq<char>) -> Seq<char> {
    if dir.len() == 0 {
        file
    } else if dir.last() == '/' {
        dir + file
    } else {
        dir + "/"@ + file
    }
}

/// Join a directory and a filename with a `/` separator.
pub fn join_path(dir: &str, file: &str) -> (r: String)
    ensures
        r@ == spec_join_path(dir@, file@),
{
    let n = dir.unicode_len();
    if n == 0 {
        return file.to_owned();
    }
    let mut out = dir.to_owned();
    if dir.get_char(n - 1) != '/' {
        out.append("/");
    }
    out.append(file);
    out
}

} // verus!
