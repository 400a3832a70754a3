use vstd::prelude::*;
use vstd::string::StrSliceExecFns;
use vstd::string::StringExecFns;

verus! {

// ---------------------------------------------------------------------------
// Plain string equality
// ---------------------------------------------------------------------------

/// Character-wise equality of two string slices.
pub fn str_eq(a: &str, b: &str) -> (r: bool)
    ensures
        r == (a@ == b@),
{
    let la = a.unicode_len();
    let lb = b.unicode_len();
    if la != lb {
        return false;
    }
    let mut i: usize = 0;
    while i < la
        invariant
            la == a@.len(),
            lb == b@.len(),
            la == lb,
            i <= la,
            forall|j: int| 0 <= j < i ==> a@[j] == b@[j],
        decreases la - i,
    {
        if a.get_char(i) != b.get_char(i) {
            return false;
        }
        i = i + 1;
    }
    proof {
        assert(a@ =~= b@);
    }
    true
}

// ---------------------------------------------------------------------------
// Boolean literals
// ---------------------------------------------------------------------------

/// The boolean a string denotes: exactly `true` or `false`, anything else is
/// no boolean.
pub open spec fn spec_parse_bool(s: Seq<char>) -> Option<bool> {
    if s == "true"@ {
        Some(true)
    } else if s == "false"@ {
        Some(false)
    } else {
        None
    }
}

/// Parses a string as a boolean literal, exactly `true` or `false`.
pub fn parse_bool_str(s: &str) -> (r: Option<bool>)
    ensures
        r == spec_parse_bool(s@),
{
    if str_eq(s, "true") {
        Some(true)
    } else if str_eq(s, "false") {
        Some(false)
    } else {
        None
    }
}

// ---------------------------------------------------------------------------
// Whitespace trimming
// ---------------------------------------------------------------------------

/// The characters the trimming step discards at either end, as std documents
/// them (the Unicode `White_Space` property).
pub open spec fn is_space_char(c: char) -> bool {
    c == ' ' || c == '\t' || c == '\n' || c == '\r' || c == '\u{0b}' || c == '\u{0c}'
        || c == '\u{85}' || c == '\u{a0}' || c == '\u{1680}'
        || ('\u{2000}' <= c && c <= '\u{200a}') || c == '\u{2028}' || c == '\u{2029}'
        || c == '\u{202f}' || c == '\u{205f}' || c == '\u{3000}'
}

pub open spec fn spec_trim_front(s: Seq<char>) -> Seq<char>
    decreases s.len(),
{
    if s.len() > 0 && is_space_char(s[0]) {
        spec_trim_front(s.drop_first())
    } else {
        s
    }
}

pub open spec fn spec_trim_back(s: Seq<char>) -> Seq<char>
    decreases s.len(),
{
    if s.len() > 0 && is_space_char(s.last()) {
        spec_trim_back(s.drop_last())
    } else {
        s
    }
}

/// The string with leading and trailing whitespace removed.
pub open spec fn spec_trim(s: Seq<char>) -> Seq<char> {
    spec_trim_back(spec_trim_front(s))
}

proof fn lemma_trim_front_skip(s: Seq<char>, k: int)
    requires
        0 <= k <= s.len(),
        forall|j: int| 0 <= j < k ==> is_space_char(s[j]),
        k == s.len() || !is_space_char(s[k]),
    ensures
        spec_trim_front(s) == s.subrange(k, s.len() as int),
    decreases k,
{
    if k == 0 {
        assert(s.subrange(0, s.len() as int) =~= s);
    } else {
        let t = s.drop_first();
        assert(forall|j: int| 0 <= j < k - 1 ==> t[j] == s[j + 1]);
        lemma_trim_front_skip(t, k - 1);
        assert(t.subrange(k - 1, t.len() as int) =~= s.subrange(k, s.len() as int));
    }
}

proof fn lemma_trim_back_keep(s: Seq<char>, k: int)
    requires
        0 <= k <= s.len(),
        forall|j: int| k <= j < s.len() ==> is_space_char(s[j]),
        k == 0 || !is_space_char(s[k - 1]),
    ensures
        spec_trim_back(s) == s.subrange(0, k),
    decreases s.len() - k,
{
    if k == s.len() {
        if s.len() > 0 && is_space_char(s.last()) {
            assert(!is_space_char(s[k - 1]));
            assert(false);
        }
        assert(s.subrange(0, s.len() as int) =~= s);
    } else {
        let t = s.drop_last();
        lemma_trim_back_keep(t, k);
        assert(t.subrange(0, k) =~= s.subrange(0, k));
    }
}

fn is_space(c: char) -> (r: bool)
    ensures
        r == is_space_char(c),
{
    c == ' ' || c == '\t' || c == '\n' || c == '\r' || c == '\u{0b}' || c == '\u{0c}'
        || c == '\u{85}' || c == '\u{a0}' || c == '\u{1680}'
        || ('\u{2000}' <= c && c <= '\u{200a}') || c == '\u{2028}' || c == '\u{2029}'
        || c == '\u{202f}' || c == '\u{205f}' || c == '\u{3000}'
}

/// Parses a string as a boolean literal after trimming surrounding
/// whitespace, as the guard evaluation step does.
pub fn parse_bool_trimmed(s: &str) -> (r: Option<bool>)
    ensures
        r == spec_parse_bool(spec_trim(s@)),
{
    let n = s.unicode_len();
    let mut lo: usize = 0;
    while lo < n && is_space(s.get_char(lo))
        invariant
            n == s@.len(),
            lo <= n,
            forall|j: int| 0 <= j < lo ==> is_space_char(s@[j]),
        decreases n - lo,
    {
        lo = lo + 1;
    }
    proof {
        lemma_trim_front_skip(s@, lo as int);
    }
    let ghost f = s@.subrange(lo as int, n as int);
    let mut hi: usize = n;
    while hi > lo && is_space(s.get_char(hi - 1))
        invariant
            n == s@.len(),
            lo <= hi <= n,
            f == s@.subrange(lo as int, n as int),
            forall|j: int| hi <= j < n ==> is_space_char(s@[j]),
        decreases hi,
    {
        hi = hi - 1;
    }
    proof {
        assert(forall|j: int| hi - lo <= j < f.len() ==> is_space_char(f[j]));
        assert(hi > lo ==> !is_space_char(f[hi - lo - 1]));
        lemma_trim_back_keep(f, hi - lo);
        assert(f.subrange(0, hi - lo) =~= s@.subrange(lo as int, hi as int));
    }
    let mid = s.substring_char(lo, hi);
    parse_bool_str(mid)
}

// ---------------------------------------------------------------------------
// ASCII case folding for fixed words
// ---------------------------------------------------------------------------

/// ASCII lower-casing of one character.
pub open spec fn lower_ascii(c: char) -> char {
    if 'A' <= c && c <= 'Z' {
        (((c as u8) + 0x20) as char)
    } else {
        c
    }
}

/// Equality up to ASCII case.
pub open spec fn ascii_case_eq(a: Seq<char>, b: Seq<char>) -> bool {
    a.len() == b.len() && forall|i: int| 0 <= i < a.len() ==> lower_ascii(a[i]) == lower_ascii(b[i])
}

fn lower_ascii_char(c: char) -> (r: char)
    ensures
        r == lower_ascii(c),
{
    if 'A' <= c && c <= 'Z' {
        ((c as u8) + 0x20) as char
    } else {
        c
    }
}

/// Compares two string slices for equality up to ASCII case.
pub fn str_eq_ignore_ascii_case(a: &str, b: &str) -> (r: bool)
    ensures
        r == ascii_case_eq(a@, b@),
{
    let la = a.unicode_len();
    let lb = b.unicode_len();
    if la != lb {
        return false;
    }
    let mut i: usize = 0;
    while i < la
        invariant
            la == a@.len(),
            lb == b@.len(),
            la == lb,
            i <= la,
            forall|j: int| 0 <= j < i ==> lower_ascii(a@[j]) == lower_ascii(b@[j]),
        decreases la - i,
    {
        if lower_ascii_char(a.get_char(i)) != lower_ascii_char(b.get_char(i)) {
            return false;
        }
        i = i + 1;
    }
    true
}

// ---------------------------------------------------------------------------
// Number literals
// ---------------------------------------------------------------------------

pub open spec fn is_digit(c: char) -> bool {
    '0' <= c && c <= '9'
}

/// The index of the first non-digit character at or after `i`.
pub open spec fn skip_digits(s: Seq<char>, i: int) -> int
    decreases s.len() - i,
{
    if 0 <= i < s.len() && is_digit(s[i]) {
        skip_digits(s, i + 1)
    } else {
        i
    }
}

/// Exponent-or-end tail of a number literal at position `k`:
/// either the string ends, or `e`/`E` followed by optionally signed digits.
pub open spec fn spec_number_tail(s: Seq<char>, k: int) -> bool {
    if k == s.len() {
        true
    } else if 0 <= k < s.len() && (s[k] == 'e' || s[k] == 'E') {
        let m = if k + 1 < s.len() && (s[k + 1] == '+' || s[k + 1] == '-') {
            k + 2
        } else {
            k + 1
        };
        let e = skip_digits(s, m);
        e > m && e == s.len()
    } else {
        false
    }
}

/// Decimal part of a number literal: digits, an optional point with more
/// digits (at least one digit in all), then the exponent-or-end tail.
pub open spec fn spec_is_decimal(s: Seq<char>) -> bool {
    let i = skip_digits(s, 0);
    if 0 <= i < s.len() && s[i] == '.' {
        let k = skip_digits(s, i + 1);
        (i > 0 || k > i + 1) && spec_number_tail(s, k)
    } else {
        i > 0 && spec_number_tail(s, i)
    }
}

/// Whether a string is a number literal, following the grammar std documents
/// for parsing a decimal number:
/// `Sign? ( 'inf' | 'infinity' | 'nan' | Digits '.'? Digits? Exp? | '.' Digits Exp? )`
/// with `Exp ::= ('e'|'E') Sign? Digits`, the words case-insensitive.
pub open spec fn spec_is_number(s: Seq<char>) -> bool {
    let b = if s.len() > 0 && (s[0] == '+' || s[0] == '-') {
        s.drop_first()
    } else {
        s
    };
    ascii_case_eq(b, "inf"@) || ascii_case_eq(b, "infinity"@) || ascii_case_eq(b, "nan"@)
        || spec_is_decimal(b)
}

fn is_digit_char(c: char) -> (r: bool)
    ensures
        r == is_digit(c),
{
    '0' <= c && c <= '9'
}

fn skip_digits_from(s: &str, i: usize) -> (r: usize)
    requires
        i <= s@.len(),
    ensures
        r == skip_digits(s@, i as int),
        i <= r <= s@.len(),
        r < s@.len() ==> !is_digit(s@[r as int]),
    decreases s@.len() - i,
{
    if i < s.unicode_len() && is_digit_char(s.get_char(i)) {
        skip_digits_from(s, i + 1)
    } else {
        i
    }
}

fn check_number_tail(s: &str, k: usize) -> (r: bool)
    requires
        k <= s@.len(),
    ensures
        r == spec_number_tail(s@, k as int),
{
    let n = s.unicode_len();
    if k == n {
        return true;
    }
    let c = s.get_char(k);
    if c != 'e' && c != 'E' {
        return false;
    }
    let m = if k + 1 < n {
        let c1 = s.get_char(k + 1);
        if c1 == '+' || c1 == '-' {
            k + 2
        } else {
            k + 1
        }
    } else {
        k + 1
    };
    let e = skip_digits_from(s, m);
    e > m && e == n
}

fn check_decimal(s: &str) -> (r: bool)
    ensures
        r == spec_is_decimal(s@),
{
    let n = s.unicode_len();
    let i = skip_digits_from(s, 0);
    if i < n && s.get_char(i) == '.' {
        let k = skip_digits_from(s, i + 1);
        (i > 0 || k > i + 1) && check_number_tail(s, k)
    } else {
        i > 0 && check_number_tail(s, i)
    }
}

/// Checks a string against the number-literal grammar of `spec_is_number`.
pub fn is_number_str(s: &str) -> (r: bool)
    ensures
        r == spec_is_number(s@),
{
    let n = s.unicode_len();
    let b: &str = if n > 0 {
        let c = s.get_char(0);
        if c == '+' || c == '-' {
            s.substring_char(1, n)
        } else {
            s.substring_char(0, n)
        }
    } else {
        s.substring_char(0, n)
    };
    proof {
        let whole = if s@.len() > 0 && (s@[0] == '+' || s@[0] == '-') {
            s@.drop_first()
        } else {
            s@
        };
        assert(b@ =~= whole);
    }
    str_eq_ignore_ascii_case(b, "inf") || str_eq_ignore_ascii_case(b, "infinity")
        || str_eq_ignore_ascii_case(b, "nan") || check_decimal(b)
}

// ---------------------------------------------------------------------------
// Output name from a path text
// ---------------------------------------------------------------------------

/// Start of the path segment that ends (exclusively) at `end`: the position
/// right after the nearest `/` before `end`.
pub open spec fn seg_start(s: Seq<char>, end: int) -> int
    decreases end,
{
    if end <= 0 {
        0
    } else if s[end - 1] == '/' {
        end
    } else {
        seg_start(s, end - 1)
    }
}

pub proof fn lemma_seg_start_bounds(s: Seq<char>, end: int)
    requires
        end >= 0,
    ensures
        0 <= seg_start(s, end) <= end,
    decreases end,
{
    if end > 0 && s[end - 1] != '/' {
        lemma_seg_start_bounds(s, end - 1);
    }
}

/// The output name drawn from the path text ending at `end`: the last
/// `/`-separated segment that is neither empty nor `.`; `project` when there
/// is no such segment or when it is `..`.
pub open spec fn spec_output_name_upto(s: Seq<char>, end: int) -> Seq<char>
    recommends
        0 <= end <= s.len(),
    decreases end,
    when end >= 0
    via spec_output_name_upto_dec
{
    let start = seg_start(s, end);
    let seg = s.subrange(start, end);
    if seg.len() > 0 && seg != "."@ {
        if seg == ".."@ {
            "project"@
        } else {
            seg
        }
    } else if start == 0 {
        "project"@
    } else {
        spec_output_name_upto(s, start - 1)
    }
}

#[via_fn]
proof fn spec_output_name_upto_dec(s: Seq<char>, end: int) {
    lemma_seg_start_bounds(s, end);
}

pub open spec fn spec_output_name(s: Seq<char>) -> Seq<char> {
    spec_output_name_upto(s, s.len() as int)
}

fn find_seg_start(s: &str, end: usize) -> (r: usize)
    requires
        end <= s@.len(),
    ensures
        r == seg_start(s@, end as int),
        r <= end,
    decreases end,
{
    if end == 0 {
        0
    } else if s.get_char(end - 1) == '/' {
        end
    } else {
        find_seg_start(s, end - 1)
    }
}

fn seg_is(s: &str, start: usize, end: usize, w: &str) -> (r: bool)
    requires
        start <= end <= s@.len(),
    ensures
        r == (s@.subrange(start as int, end as int) == w@),
{
    let seg = s.substring_char(start, end);
    str_eq(seg, w)
}

fn output_name_upto(s: &str, end: usize) -> (r: String)
    requires
        end <= s@.len(),
    ensures
        r@ == spec_output_name_upto(s@, end as int),
    decreases end,
{
    let start = find_seg_start(s, end);
    let nonempty = start < end;
    let is_dot = seg_is(s, start, end, ".");
    if nonempty && !is_dot {
        if seg_is(s, start, end, "..") {
            String::from_str("project")
        } else {
            s.substring_char(start, end).to_owned()
        }
    } else if start == 0 {
        String::from_str("project")
    } else {
        output_name_upto(s, start - 1)
    }
}

/// The last usable path segment of `s`, as `spec_output_name` defines it.
pub fn output_name_of(s: &str) -> (r: String)
    ensures
        r@ == spec_output_name(s@),
{
    output_name_upto(s, s.unicode_len())
}

// ---------------------------------------------------------------------------
// File stems
// ---------------------------------------------------------------------------

/// The index of the last `.` in the string, or -1 where there is none.
pub open spec fn last_dot(s: Seq<char>) -> int
    decreases s.len(),
{
    if s.len() == 0 {
        -1
    } else if s.last() == '.' {
        s.len() - 1
    } else {
        last_dot(s.drop_last())
    }
}

/// The name with its extension stripped: everything before the last `.`,
/// unless the name starts with that `.` or has none.
pub open spec fn spec_file_stem(s: Seq<char>) -> Seq<char> {
    let d = last_dot(s);
    if d > 0 {
        s.take(d)
    } else {
        s
    }
}

proof fn lemma_last_dot_bounds(s: Seq<char>)
    ensures
        -1 <= last_dot(s) < s.len(),
    decreases s.len(),
{
    if s.len() > 0 && s.last() != '.' {
        lemma_last_dot_bounds(s.drop_last());
    }
}

fn last_dot_upto(s: &str, end: usize) -> (r: Option<usize>)
    requires
        end <= s@.len(),
    ensures
        match r {
            Some(d) => last_dot(s@.take(end as int)) == d && d < end,
            None => last_dot(s@.take(end as int)) == -1,
        },
    decreases end,
{
    if end == 0 {
        assert(s@.take(0).len() == 0);
        None
    } else if s.get_char(end - 1) == '.' {
        proof {
            assert(s@.take(end as int).last() == s@[end - 1]);
        }
        Some(end - 1)
    } else {
        proof {
            assert(s@.take(end as int).drop_last() =~= s@.take(end as int - 1));
        }
        last_dot_upto(s, end - 1)
    }
}

/// The file stem of the name: the text before its last `.`, kept whole where
/// the `.` leads or is absent.
pub fn file_stem_of(s: &str) -> (r: String)
    ensures
        r@ == spec_file_stem(s@),
{
    let n = s.unicode_len();
    proof {
        assert(s@.take(n as int) =~= s@);
    }
    match last_dot_upto(s, n) {
        Some(d) => {
            if d > 0 {
                s.substring_char(0, d).to_owned()
            } else {
                s.substring_char(0, n).to_owned()
            }
        },
        None => s.substring_char(0, n).to_owned(),
    }
}

// ---------------------------------------------------------------------------
// Prefixes, suffixes, concatenation
// ---------------------------------------------------------------------------

/// Whether `s` ends with `suffix`, character-wise.
pub open spec fn spec_ends_with(s: Seq<char>, suffix: Seq<char>) -> bool {
    s.len() >= suffix.len() && s.subrange(s.len() - suffix.len(), s.len() as int) == suffix
}

pub fn ends_with_str(s: &str, suffix: &str) -> (r: bool)
    ensures
        r == spec_ends_with(s@, suffix@),
{
    let n = s.unicode_len();
    let m = suffix.unicode_len();
    if n < m {
        return false;
    }
    let tail = s.substring_char(n - m, n);
    str_eq(tail, suffix)
}

/// The views of a sequence of strings.
pub open spec fn views_of(v: Seq<String>) -> Seq<Seq<char>> {
    v.map_values(|s: String| s@)
}

/// Concatenation of two string slices.
pub fn concat_str(a: &str, b: &str) -> (r: String)
    ensures
        r@ == a@ + b@,
{
    let mut r = a.to_owned();
    r.append(b);
    r
}

} // verus!
