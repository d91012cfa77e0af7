//! Character-level text utilities shared by the path, command and
//! output-naming logic: splitting, trimming, joining, comparing, and decimal
//! conversion, each specified over `Seq<char>`.
use vstd::prelude::*;
use vstd::string::*;

verus! {

/// The views of a sequence of strings.
pub open spec fn strs(v: Seq<String>) -> Seq<Seq<char>> {
    v.map_values(|w: String| w@)
}

/// `char::is_whitespace`: the Unicode `White_Space` property.
pub open spec fn is_white(c: char) -> bool {
    let u = c as u32;
    ||| 0x09 <= u <= 0x0d
    ||| u == 0x20
    ||| u == 0x85
    ||| u == 0xa0
    ||| u == 0x1680
    ||| 0x2000 <= u <= 0x200a
    ||| u == 0x2028
    ||| u == 0x2029
    ||| u == 0x202f
    ||| u == 0x205f
    ||| u == 0x3000
}

/// Whether `c` separates fields: the given character, or any whitespace
/// when no character is given.
pub open spec fn separates(c: char, sep: Option<char>) -> bool {
    match sep {
        Some(x) => c == x,
        None => is_white(c),
    }
}

/// Left-to-right scan of `s`: the non-empty fields completed so far and the
/// field being read.
pub open spec fn scan_fields(s: Seq<char>, sep: Option<char>) -> (Seq<Seq<char>>, Seq<char>)
    decreases s.len(),
{
    if s.len() == 0 {
        (Seq::empty(), Seq::empty())
    } else {
        let prev = scan_fields(s.drop_last(), sep);
        let c = s.last();
        if separates(c, sep) {
            if prev.1.len() > 0 {
                (prev.0.push(prev.1), Seq::empty())
            } else {
                (prev.0, Seq::empty())
            }
        } else {
            (prev.0, prev.1.push(c))
        }
    }
}

/// The non-empty maximal runs of non-separator characters of `s`, in order:
/// `s.split(sep).filter(|p| !p.is_empty())`, or `s.split_whitespace()` when
/// `sep` is `None`.
pub open spec fn fields(s: Seq<char>, sep: Option<char>) -> Seq<Seq<char>> {
    let r = scan_fields(s, sep);
    if r.1.len() > 0 {
        r.0.push(r.1)
    } else {
        r.0
    }
}

/// Left-to-right scan for an unfiltered split: the fields completed so far
/// and the field being read.
pub open spec fn scan_pieces(s: Seq<char>, sep: char) -> (Seq<Seq<char>>, Seq<char>)
    decreases s.len(),
{
    if s.len() == 0 {
        (Seq::empty(), Seq::empty())
    } else {
        let prev = scan_pieces(s.drop_last(), sep);
        if s.last() == sep {
            (prev.0.push(prev.1), Seq::empty())
        } else {
            (prev.0, prev.1.push(s.last()))
        }
    }
}

/// `s.split(sep)`: every field between separators, empty ones included; an
/// empty `s` gives one empty field.
pub open spec fn pieces(s: Seq<char>, sep: char) -> Seq<Seq<char>> {
    let r = scan_pieces(s, sep);
    r.0.push(r.1)
}

/// `s.trim_start_matches(c)`.
pub open spec fn trim_start(s: Seq<char>, c: char) -> Seq<char>
    decreases s.len(),
{
    if s.len() > 0 && s[0] == c {
        trim_start(s.subrange(1, s.len() as int), c)
    } else {
        s
    }
}

/// `s.trim_end_matches(c)`.
pub open spec fn trim_end(s: Seq<char>, c: char) -> Seq<char>
    decreases s.len(),
{
    if s.len() > 0 && s.last() == c {
        trim_end(s.drop_last(), c)
    } else {
        s
    }
}

/// `s.trim_matches(c)`.
pub open spec fn trim(s: Seq<char>, c: char) -> Seq<char> {
    trim_end(trim_start(s, c), c)
}

/// `parts.join(sep)`.
pub open spec fn join(parts: Seq<Seq<char>>, sep: Seq<char>) -> Seq<char>
    decreases parts.len(),
{
    if parts.len() == 0 {
        Seq::empty()
    } else if parts.len() == 1 {
        parts[0]
    } else {
        join(parts.drop_last(), sep) + sep + parts.last()
    }
}

/// Whether every character of `s` is an ASCII decimal digit.
pub open spec fn all_digits(s: Seq<char>) -> bool {
    forall|i: int| 0 <= i < s.len() ==> '0' <= #[trigger] s[i] <= '9'
}

/// The value of a string of decimal digits.
pub open spec fn digits_value(s: Seq<char>) -> nat
    decreases s.len(),
{
    if s.len() == 0 {
        0
    } else {
        digits_value(s.drop_last()) * 10 + ((s.last() as nat) - ('0' as nat)) as nat
    }
}

/// What `str::parse::<T>` accepts for an unsigned `T` whose largest value is
/// `max`: an optional `+` then at least one digit, with a value up to `max`.
pub open spec fn parse_unsigned(s: Seq<char>, max: nat) -> Option<nat> {
    let body = if s.len() > 0 && s[0] == '+' {
        s.subrange(1, s.len() as int)
    } else {
        s
    };
    if body.len() > 0 && all_digits(body) && digits_value(body) <= max {
        Some(digits_value(body))
    } else {
        None
    }
}

/// What `str::parse::<i32>` accepts: an optional `+` or `-` then at least
/// one digit, with a value inside the `i32` range.
pub open spec fn parse_i32_spec(s: Seq<char>) -> Option<int> {
    let neg = s.len() > 0 && s[0] == '-';
    let body = if s.len() > 0 && (s[0] == '+' || s[0] == '-') {
        s.subrange(1, s.len() as int)
    } else {
        s
    };
    if body.len() > 0 && all_digits(body) {
        let v = digits_value(body) as int;
        let r = if neg {
            -v
        } else {
            v
        };
        if i32::MIN <= r <= i32::MAX {
            Some(r)
        } else {
            None
        }
    } else {
        None
    }
}

/// The decimal digits of `n`, as `n.to_string()` writes them.
pub open spec fn decimal(n: nat) -> Seq<char>
    decreases n,
{
    if n < 10 {
        seq![((n + ('0' as nat)) as u32) as char]
    } else {
        decimal(n / 10).push((((n % 10) + ('0' as nat)) as u32) as char)
    }
}

/// Different numbers have different decimal texts.
pub proof fn lemma_decimal_injective(a: nat, b: nat)
    requires
        decimal(a) == decimal(b),
    ensures
        a == b,
    decreases a + b,
{
    lemma_decimal_len(a);
    lemma_decimal_len(b);
    if a >= 10 && b >= 10 {
        let da = decimal(a);
        let db = decimal(b);
        assert(da.drop_last() =~= decimal(a / 10));
        assert(db.drop_last() =~= decimal(b / 10));
        lemma_decimal_injective(a / 10, b / 10);
        assert(da.last() == db.last());
        assert(da.last() as u32 == (a % 10) + 48);
        assert(db.last() as u32 == (b % 10) + 48);
    } else if a < 10 && b < 10 {
        assert(decimal(a)[0] == decimal(b)[0]);
        assert(decimal(a)[0] as u32 == a + 48);
        assert(decimal(b)[0] as u32 == b + 48);
    }
}

/// A number below 10 has one digit, a larger one more.
pub proof fn lemma_decimal_len(n: nat)
    ensures
        n < 10 ==> decimal(n).len() == 1,
        n >= 10 ==> decimal(n).len() >= 2,
    decreases n,
{
    if n >= 10 {
        lemma_decimal_len(n / 10);
    }
}

/// Whether `c` is an ASCII letter equal to `lower` ignoring ASCII case;
/// `lower` is a lower-case ASCII letter.
pub open spec fn same_letter(c: char, lower: char) -> bool {
    c == lower || (c as u32) + 32 == (lower as u32)
}

/// `String::push`: the string after the call is the one before with `c`
/// added at its end, as std documents.
#[verifier::external_body]
fn push_char(s: &mut String, c: char)
    ensures
        final(s)@ == old(s)@.push(c),
{
    s.push(c);
}

/// `char::is_whitespace`.
pub fn char_is_white(c: char) -> (r: bool)
    ensures
        r == is_white(c),
{
    let u = c as u32;
    (0x09 <= u && u <= 0x0d) || u == 0x20 || u == 0x85 || u == 0xa0 || u == 0x1680 || (0x2000
        <= u && u <= 0x200a) || u == 0x2028 || u == 0x2029 || u == 0x202f || u == 0x205f || u
        == 0x3000
}

/// An owned copy of `s`.
pub fn owned(s: &str) -> (r: String)
    ensures
        r@ == s@,
{
    String::from_str(s)
}

/// Whether two strings hold the same characters.
pub fn str_eq(a: &str, b: &str) -> (r: bool)
    ensures
        r == (a@ == b@),
{
    let n = a.unicode_len();
    let m = b.unicode_len();
    if n != m {
        return false;
    }
    let mut i: usize = 0;
    while i < n
        invariant
            n == a@.len(),
            m == b@.len(),
            n == m,
            i <= n,
            forall|j: int| 0 <= j < i ==> a@[j] == b@[j],
        decreases n - i,
    {
        if a.get_char(i) != b.get_char(i) {
            return false;
        }
        i = i + 1;
    }
    assert(a@ =~= b@);
    true
}

/// Whether `s` begins with `prefix`.
pub fn starts_with(s: &str, prefix: &str) -> (r: bool)
    ensures
        r == (prefix@.len() <= s@.len() && s@.subrange(0, prefix@.len() as int) == prefix@),
{
    let n = s.unicode_len();
    let m = prefix.unicode_len();
    if m > n {
        return false;
    }
    let mut i: usize = 0;
    while i < m
        invariant
            n == s@.len(),
            m == prefix@.len(),
            m <= n,
            i <= m,
            forall|j: int| 0 <= j < i ==> s@[j] == prefix@[j],
        decreases m - i,
    {
        if s.get_char(i) != prefix.get_char(i) {
            assert(s@.subrange(0, m as int)[i as int] != prefix@[i as int]);
            return false;
        }
        i = i + 1;
    }
    assert(s@.subrange(0, m as int) =~= prefix@);
    true
}

/// Whether `s` ends with `suffix`.
pub fn ends_with(s: &str, suffix: &str) -> (r: bool)
    ensures
        r == (suffix@.len() <= s@.len() && s@.subrange(
            s@.len() - suffix@.len(),
            s@.len() as int,
        ) == suffix@),
{
    let n = s.unicode_len();
    let m = suffix.unicode_len();
    if m > n {
        return false;
    }
    let d = n - m;
    let mut i: usize = 0;
    while i < m
        invariant
            n == s@.len(),
            m == suffix@.len(),
            m <= n,
            d == n - m,
            i <= m,
            forall|j: int| 0 <= j < i ==> s@[d + j] == suffix@[j],
        decreases m - i,
    {
        if s.get_char(d + i) != suffix.get_char(i) {
            assert(s@.subrange(d as int, n as int)[i as int] != suffix@[i as int]);
            return false;
        }
        i = i + 1;
    }
    assert(s@.subrange(d as int, n as int) =~= suffix@);
    true
}

/// `s.strip_prefix(prefix)`.
pub fn strip_prefix(s: &str, prefix: &str) -> (r: Option<String>)
    ensures
        match r {
            Some(rest) => prefix@.len() <= s@.len() && s@.subrange(0, prefix@.len() as int)
                == prefix@ && rest@ == s@.subrange(prefix@.len() as int, s@.len() as int),
            None => !(prefix@.len() <= s@.len() && s@.subrange(0, prefix@.len() as int)
                == prefix@),
        },
{
    if starts_with(s, prefix) {
        let n = s.unicode_len();
        let m = prefix.unicode_len();
        Some(owned(s.substring_char(m, n)))
    } else {
        None
    }
}

/// `s.strip_suffix(suffix)`: what precedes `suffix` at the end of `s`.
pub open spec fn suffix_stripped(s: Seq<char>, suffix: Seq<char>) -> Option<Seq<char>> {
    if suffix.len() <= s.len() && s.subrange(s.len() - suffix.len(), s.len() as int) == suffix {
        Some(s.subrange(0, s.len() - suffix.len()))
    } else {
        None
    }
}

/// `s.strip_suffix(suffix)`.
pub fn strip_suffix(s: &str, suffix: &str) -> (r: Option<String>)
    ensures
        match r {
            Some(rest) => suffix_stripped(s@, suffix@) == Some(rest@),
            None => suffix_stripped(s@, suffix@) is None,
        },
{
    if ends_with(s, suffix) {
        let n = s.unicode_len();
        let m = suffix.unicode_len();
        Some(owned(s.substring_char(0, n - m)))
    } else {
        None
    }
}

/// Whether `needle` occurs in `s` as a contiguous run.
pub fn contains(s: &str, needle: &str) -> (r: bool)
    ensures
        r == exists|k: int|
            0 <= k && k + needle@.len() <= s@.len() && #[trigger] s@.subrange(
                k,
                k + needle@.len(),
            ) == needle@,
{
    let n = s.unicode_len();
    let m = needle.unicode_len();
    if m > n {
        assert forall|k: int| 0 <= k && k + m <= n implies #[trigger] s@.subrange(k, k + m)
            != needle@ by {}
        return false;
    }
    let mut k: usize = 0;
    loop
        invariant
            n == s@.len(),
            m == needle@.len(),
            m <= n,
            k <= n - m,
            forall|j: int| 0 <= j < k ==> #[trigger] s@.subrange(j, j + m) != needle@,
        decreases n - m - k,
    {
        let piece = s.substring_char(k, k + m);
        if str_eq(piece, needle) {
            return true;
        }
        if k == n - m {
            return false;
        }
        k = k + 1;
    }
}

/// `s.split(sep).filter(|p| !p.is_empty())`, or `s.split_whitespace()`
/// when `sep` is `None`.
pub fn split_fields(s: &str, sep: Option<char>) -> (r: Vec<String>)
    ensures
        strs(r@) == fields(s@, sep),
{
    let n = s.unicode_len();
    let mut done: Vec<String> = Vec::new();
    let mut cur = String::new();
    let mut cur_len: usize = 0;
    let mut i: usize = 0;
    while i < n
        invariant
            n == s@.len(),
            i <= n,
            cur_len == cur@.len(),
            cur_len <= i,
            scan_fields(s@.subrange(0, i as int), sep) == (strs(done@), cur@),
        decreases n - i,
    {
        let c = s.get_char(i);
        let is_sep = match sep {
            Some(x) => c == x,
            None => char_is_white(c),
        };
        proof {
            assert(s@.subrange(0, i + 1).drop_last() =~= s@.subrange(0, i as int));
            assert(s@.subrange(0, i + 1).last() == c);
        }
        if is_sep {
            if cur_len > 0 {
                let ghost before = done@;
                done.push(cur);
                proof {
                    assert(strs(done@) =~= strs(before).push(cur@));
                }
                cur = String::new();
                cur_len = 0;
            } else {
                cur = String::new();
                proof {
                    assert(cur@ =~= Seq::<char>::empty());
                }
            }
        } else {
            push_char(&mut cur, c);
            cur_len = cur_len + 1;
        }
        i = i + 1;
    }
    proof {
        assert(s@.subrange(0, n as int) =~= s@);
    }
    if cur_len > 0 {
        let ghost before = done@;
        done.push(cur);
        proof {
            assert(strs(done@) =~= strs(before).push(cur@));
        }
    }
    done
}

/// `s.split(sep)`, empty fields included.
pub fn split_pieces(s: &str, sep: char) -> (r: Vec<String>)
    ensures
        strs(r@) == pieces(s@, sep),
{
    let n = s.unicode_len();
    let mut done: Vec<String> = Vec::new();
    let mut cur = String::new();
    let mut i: usize = 0;
    while i < n
        invariant
            n == s@.len(),
            i <= n,
            scan_pieces(s@.subrange(0, i as int), sep) == (strs(done@), cur@),
        decreases n - i,
    {
        let c = s.get_char(i);
        proof {
            assert(s@.subrange(0, i + 1).drop_last() =~= s@.subrange(0, i as int));
            assert(s@.subrange(0, i + 1).last() == c);
        }
        if c == sep {
            let ghost before = done@;
            done.push(cur);
            proof {
                assert(strs(done@) =~= strs(before).push(cur@));
            }
            cur = String::new();
        } else {
            push_char(&mut cur, c);
        }
        i = i + 1;
    }
    proof {
        assert(s@.subrange(0, n as int) =~= s@);
    }
    let ghost before = done@;
    done.push(cur);
    proof {
        assert(strs(done@) =~= strs(before).push(cur@));
    }
    done
}

proof fn lemma_trim_start_skip(s: Seq<char>, c: char, a: int)
    requires
        0 <= a < s.len(),
        s[a] == c,
    ensures
        trim_start(s.subrange(a, s.len() as int), c) == trim_start(
            s.subrange(a + 1, s.len() as int),
            c,
        ),
{
    let t = s.subrange(a, s.len() as int);
    assert(t.subrange(1, t.len() as int) =~= s.subrange(a + 1, s.len() as int));
}

proof fn lemma_trim_end_skip(s: Seq<char>, c: char, b: int)
    requires
        0 < b <= s.len(),
        s[b - 1] == c,
    ensures
        trim_end(s.subrange(0, b), c) == trim_end(s.subrange(0, b - 1), c),
{
    assert(s.subrange(0, b).drop_last() =~= s.subrange(0, b - 1));
}

/// `s.trim_matches(c)`.
pub fn trim_matches(s: &str, c: char) -> (r: String)
    ensures
        r@ == trim(s@, c),
{
    let n = s.unicode_len();
    let mut a: usize = 0;
    assert(s@.subrange(0, n as int) =~= s@);
    while a < n && s.get_char(a) == c
        invariant
            n == s@.len(),
            a <= n,
            trim_start(s@, c) == trim_start(s@.subrange(a as int, n as int), c),
        decreases n - a,
    {
        proof {
            lemma_trim_start_skip(s@, c, a as int);
        }
        a = a + 1;
    }
    proof {
        assert(s@.subrange(0, n as int) =~= s@);
        assert(trim_start(s@.subrange(a as int, n as int), c) == s@.subrange(a as int, n as int));
    }
    let ghost t = s@.subrange(a as int, n as int);
    let mut b: usize = n;
    while b > a && s.get_char(b - 1) == c
        invariant
            n == s@.len(),
            a <= b <= n,
            t == s@.subrange(a as int, n as int),
            trim_end(t, c) == trim_end(s@.subrange(a as int, b as int), c),
        decreases b,
    {
        proof {
            let u = s@.subrange(a as int, b as int);
            assert(u.drop_last() =~= s@.subrange(a as int, b - 1));
        }
        b = b - 1;
    }
    proof {
        let u = s@.subrange(a as int, b as int);
        if u.len() > 0 {
            assert(u.last() == s@[b - 1]);
        }
    }
    owned(s.substring_char(a, b))
}

/// `s` without its leading whitespace.
pub open spec fn trim_start_white(s: Seq<char>) -> Seq<char>
    decreases s.len(),
{
    if s.len() > 0 && is_white(s[0]) {
        trim_start_white(s.subrange(1, s.len() as int))
    } else {
        s
    }
}

/// `s` without its trailing whitespace.
pub open spec fn trim_end_white(s: Seq<char>) -> Seq<char>
    decreases s.len(),
{
    if s.len() > 0 && is_white(s.last()) {
        trim_end_white(s.drop_last())
    } else {
        s
    }
}

/// `str::trim`: `s` without leading and trailing whitespace.
pub open spec fn trim_white(s: Seq<char>) -> Seq<char> {
    trim_end_white(trim_start_white(s))
}

/// `s.trim()`.
pub fn trim_whitespace(s: &str) -> (r: String)
    ensures
        r@ == trim_white(s@),
{
    let n = s.unicode_len();
    let mut a: usize = 0;
    assert(s@.subrange(0, n as int) =~= s@);
    while a < n && char_is_white(s.get_char(a))
        invariant
            n == s@.len(),
            a <= n,
            trim_start_white(s@) == trim_start_white(s@.subrange(a as int, n as int)),
        decreases n - a,
    {
        proof {
            let t = s@.subrange(a as int, n as int);
            assert(t.subrange(1, t.len() as int) =~= s@.subrange(a + 1, n as int));
        }
        a = a + 1;
    }
    let ghost t = s@.subrange(a as int, n as int);
    let mut b: usize = n;
    while b > a && char_is_white(s.get_char(b - 1))
        invariant
            n == s@.len(),
            a <= b <= n,
            t == s@.subrange(a as int, n as int),
            trim_end_white(t) == trim_end_white(s@.subrange(a as int, b as int)),
        decreases b,
    {
        proof {
            let u = s@.subrange(a as int, b as int);
            assert(u.drop_last() =~= s@.subrange(a as int, b - 1));
        }
        b = b - 1;
    }
    proof {
        let u = s@.subrange(a as int, b as int);
        if u.len() > 0 {
            assert(u.last() == s@[b - 1]);
        }
    }
    owned(s.substring_char(a, b))
}

/// `s.splitn(2, c)`: what precedes the first `c`, and what follows it if
/// there is one.
pub open spec fn split_once(s: Seq<char>, c: char) -> (Seq<char>, Option<Seq<char>>)
    decreases s.len(),
{
    if s.len() == 0 {
        (s, None)
    } else if s[0] == c {
        (Seq::empty(), Some(s.subrange(1, s.len() as int)))
    } else {
        let r = split_once(s.subrange(1, s.len() as int), c);
        (seq![s[0]] + r.0, r.1)
    }
}

/// The position of the first `c` in `s` is where `split_once` splits.
proof fn lemma_split_once(s: Seq<char>, c: char, i: int)
    requires
        0 <= i <= s.len(),
        forall|j: int| 0 <= j < i ==> s[j] != c,
    ensures
        i < s.len() && s[i] == c ==> split_once(s, c) == (
            s.subrange(0, i),
            Some(s.subrange(i + 1, s.len() as int)),
        ),
        i == s.len() ==> split_once(s, c) == (s, None::<Seq<char>>),
    decreases i,
{
    if i > 0 {
        let t = s.subrange(1, s.len() as int);
        lemma_split_once(t, c, i - 1);
        assert(seq![s[0]] + t.subrange(0, i - 1) =~= s.subrange(0, i));
        if i < s.len() {
            assert(t.subrange(i, t.len() as int) =~= s.subrange(i + 1, s.len() as int));
        }
        assert(seq![s[0]] + t =~= s);
    } else {
        if s.len() > 0 {
            assert(s.subrange(0, 0) =~= Seq::<char>::empty());
        }
    }
}

/// `s.splitn(2, c)`.
pub fn split_at_first(s: &str, c: char) -> (r: (String, Option<String>))
    ensures
        (r.0@, match r.1 {
            Some(t) => Some(t@),
            None => None,
        }) == split_once(s@, c),
{
    let n = s.unicode_len();
    let mut i: usize = 0;
    while i < n && s.get_char(i) != c
        invariant
            n == s@.len(),
            i <= n,
            forall|j: int| 0 <= j < i ==> s@[j] != c,
        decreases n - i,
    {
        i = i + 1;
    }
    proof {
        lemma_split_once(s@, c, i as int);
        if i == n {
            assert(s@.subrange(0, n as int) =~= s@);
        }
    }
    if i < n {
        (owned(s.substring_char(0, i)), Some(owned(s.substring_char(i + 1, n))))
    } else {
        (owned(s.substring_char(0, n)), None)
    }
}

/// `parts.join(sep)`.
pub fn join_strings(parts: &Vec<String>, sep: &str) -> (r: String)
    ensures
        r@ == join(strs(parts@), sep@),
{
    let mut res = String::new();
    let n = parts.len();
    let mut i: usize = 0;
    while i < n
        invariant
            n == parts@.len(),
            i <= n,
            res@ == join(strs(parts@).subrange(0, i as int), sep@),
        decreases n - i,
    {
        let ghost ps = strs(parts@);
        proof {
            assert(ps.subrange(0, i + 1).drop_last() =~= ps.subrange(0, i as int));
            assert(ps.subrange(0, i + 1).last() == parts@[i as int]@);
        }
        if i == 0 {
            res.append(parts[i].as_str());
            proof {
                assert(res@ =~= parts@[0]@);
            }
        } else {
            res.append(sep);
            res.append(parts[i].as_str());
        }
        i = i + 1;
    }
    proof {
        assert(strs(parts@).subrange(0, n as int) =~= strs(parts@));
    }
    res
}

proof fn lemma_digits_value_push(s: Seq<char>, c: char)
    ensures
        digits_value(s.push(c)) == digits_value(s) * 10 + ((c as nat) - ('0' as nat)) as nat,
{
    assert(s.push(c).drop_last() =~= s);
}

/// Appending digits never lowers the value.
proof fn lemma_digits_value_grows(s: Seq<char>, k: int)
    requires
        0 <= k <= s.len(),
        all_digits(s),
    ensures
        digits_value(s.subrange(0, k)) <= digits_value(s),
    decreases s.len() - k,
{
    if k < s.len() {
        let t = s.subrange(0, k + 1);
        assert(t.drop_last() =~= s.subrange(0, k));
        assert('0' <= s[k]);
        lemma_digits_value_grows(s, k + 1);
    } else {
        assert(s.subrange(0, k) =~= s);
    }
}

/// The value of `s` read as decimal digits when `s` is non-empty, all
/// digits, and its value is at most `cap`.
fn digits_upto(s: &str, cap: u64) -> (r: Option<u64>)
    ensures
        match r {
            Some(v) => s@.len() > 0 && all_digits(s@) && digits_value(s@) <= cap && v
                == digits_value(s@),
            None => !(s@.len() > 0 && all_digits(s@) && digits_value(s@) <= cap),
        },
{
    let n = s.unicode_len();
    if n == 0 {
        return None;
    }
    let mut v: u64 = 0;
    let mut i: usize = 0;
    while i < n
        invariant
            n == s@.len(),
            i <= n,
            all_digits(s@.subrange(0, i as int)),
            v == digits_value(s@.subrange(0, i as int)),
            v <= cap,
        decreases n - i,
    {
        let c = s.get_char(i);
        if !('0' <= c && c <= '9') {
            assert(!all_digits(s@)) by {
                assert(s@[i as int] == c);
            }
            return None;
        }
        let d = (c as u32 - '0' as u32) as u64;
        proof {
            assert(s@.subrange(0, i + 1) =~= s@.subrange(0, i as int).push(c));
            lemma_digits_value_push(s@.subrange(0, i as int), c);
        }
        let w = match v.checked_mul(10) {
            Some(t) => t.checked_add(d),
            None => None,
        };
        match w {
            Some(w) if w <= cap => {
                v = w;
            },
            _ => {
                proof {
                    if all_digits(s@) {
                        lemma_digits_value_grows(s@, i + 1);
                    }
                }
                return None;
            },
        }
        i = i + 1;
    }
    proof {
        assert(s@.subrange(0, n as int) =~= s@);
    }
    Some(v)
}

/// `s.parse::<usize>()`.
pub fn parse_usize(s: &str) -> (r: Option<usize>)
    ensures
        match r {
            Some(v) => parse_unsigned(s@, usize::MAX as nat) == Some(v as nat),
            None => parse_unsigned(s@, usize::MAX as nat) is None,
        },
{
    let n = s.unicode_len();
    let body = if n > 0 && s.get_char(0) == '+' {
        s.substring_char(1, n)
    } else {
        s
    };
    match digits_upto(body, usize::MAX as u64) {
        Some(v) => Some(v as usize),
        None => None,
    }
}

/// `s.parse::<i32>()`.
pub fn parse_i32(s: &str) -> (r: Option<i32>)
    ensures
        match r {
            Some(v) => parse_i32_spec(s@) == Some(v as int),
            None => parse_i32_spec(s@) is None,
        },
{
    let n = s.unicode_len();
    let neg = n > 0 && s.get_char(0) == '-';
    let signed = n > 0 && (s.get_char(0) == '+' || s.get_char(0) == '-');
    let body = if signed {
        s.substring_char(1, n)
    } else {
        s
    };
    if neg {
        match digits_upto(body, 0x8000_0000) {
            Some(v) => Some((0 - (v as i64)) as i32),
            None => None,
        }
    } else {
        match digits_upto(body, 0x7fff_ffff) {
            Some(v) => Some(v as i32),
            None => None,
        }
    }
}

/// `n.to_string()`.
pub fn decimal_string(n: u64) -> (r: String)
    ensures
        r@ == decimal(n as nat),
    decreases n,
{
    if n < 10 {
        let mut s = String::new();
        let c = char_from_digit(n);
        push_char(&mut s, c);
        proof {
            assert(s@ =~= seq![c]);
        }
        s
    } else {
        let mut s = decimal_string(n / 10);
        let c = char_from_digit(n % 10);
        push_char(&mut s, c);
        s
    }
}

fn char_from_digit(d: u64) -> (c: char)
    requires
        d < 10,
    ensures
        c == (((d as nat) + ('0' as nat)) as u32) as char,
{
    if d == 0 {
        '0'
    } else if d == 1 {
        '1'
    } else if d == 2 {
        '2'
    } else if d == 3 {
        '3'
    } else if d == 4 {
        '4'
    } else if d == 5 {
        '5'
    } else if d == 6 {
        '6'
    } else if d == 7 {
        '7'
    } else if d == 8 {
        '8'
    } else {
        '9'
    }
}

/// Whether `s` equals the lower-case ASCII word `lower` ignoring ASCII case,
/// which is what `s.to_lowercase() == lower` decides for such a word.
pub fn eq_lower_ascii(s: &str, lower: &str) -> (r: bool)
    ensures
        r == (s@.len() == lower@.len() && forall|i: int|
            0 <= i < s@.len() ==> same_letter(#[trigger] s@[i], lower@[i])),
{
    let n = s.unicode_len();
    let m = lower.unicode_len();
    if n != m {
        return false;
    }
    let mut i: usize = 0;
    while i < n
        invariant
            n == s@.len(),
            m == lower@.len(),
            n == m,
            i <= n,
            forall|j: int| 0 <= j < i ==> same_letter(#[trigger] s@[j], lower@[j]),
        decreases n - i,
    {
        let c = s.get_char(i);
        let l = lower.get_char(i);
        if !(c == l || (c as u32) + 32 == (l as u32)) {
            return false;
        }
        i = i + 1;
    }
    true
}

} // verus!
