//! Character-level text model shared by every parser in the crate.
//!
//! Text is handled as its sequence of Unicode scalar values (`Seq<char>`),
//! which is exactly the view vstd gives `str` and `String`. Byte lengths,
//! where a bound is stated in bytes, are the length of the UTF-8 encoding.
use vstd::prelude::*;
use vstd::utf8::encode_utf8;

verus! {

// ---------------------------------------------------------------------------
// Character classes
// ---------------------------------------------------------------------------

/// Unicode `White_Space` (what `char::is_whitespace` and `str::trim` use).
pub open spec fn is_ws(c: char) -> bool {
    let u = c as u32;
    (0x09 <= u && u <= 0x0D) || u == 0x20 || u == 0x85 || u == 0xA0 || u == 0x1680 || (0x2000
        <= u && u <= 0x200A) || u == 0x2028 || u == 0x2029 || u == 0x202F || u == 0x205F || u
        == 0x3000
}

/// ASCII whitespace as `u8::is_ascii_whitespace` defines it
/// (space, tab, line feed, form feed, carriage return).
pub open spec fn is_ascii_ws(c: char) -> bool {
    c == ' ' || c == '\t' || c == '\n' || c == '\x0C' || c == '\r'
}

pub open spec fn is_ascii_char(c: char) -> bool {
    (c as u32) < 128
}

pub open spec fn is_ascii_seq(s: Seq<char>) -> bool {
    forall|i: int| 0 <= i < s.len() ==> is_ascii_char(#[trigger] s[i])
}

pub open spec fn is_ascii_digit(c: char) -> bool {
    '0' <= c && c <= '9'
}

pub open spec fn is_ascii_alpha(c: char) -> bool {
    ('a' <= c && c <= 'z') || ('A' <= c && c <= 'Z')
}

/// ASCII lower-casing of one character; every other character is unchanged.
pub open spec fn lower(c: char) -> char {
    if 'A' <= c && c <= 'Z' {
        ((c as u32) + 32) as char
    } else {
        c
    }
}

/// ASCII upper-casing of one character; every other character is unchanged.
pub open spec fn upper(c: char) -> char {
    if 'a' <= c && c <= 'z' {
        ((c as u32) - 32) as char
    } else {
        c
    }
}

pub open spec fn lower_seq(s: Seq<char>) -> Seq<char> {
    s.map_values(|c: char| lower(c))
}

/// `eq_ignore_ascii_case` on character sequences.
pub open spec fn eq_ic(a: Seq<char>, b: Seq<char>) -> bool {
    a.len() == b.len() && forall|i: int| 0 <= i < a.len() ==> lower(#[trigger] a[i]) == lower(b[i])
}

pub open spec fn starts_with(s: Seq<char>, p: Seq<char>) -> bool {
    p.len() <= s.len() && s.take(p.len() as int) == p
}

pub open spec fn ends_with(s: Seq<char>, p: Seq<char>) -> bool {
    p.len() <= s.len() && s.skip(s.len() - p.len()) == p
}

/// `s` contains `p` as a contiguous run.
pub open spec fn contains_seq(s: Seq<char>, p: Seq<char>) -> bool {
    exists|i: int| 0 <= i && i + p.len() <= s.len() && #[trigger] s.subrange(i, i + p.len()) == p
}

/// UTF-8 byte length (what `str::len` returns).
pub open spec fn blen(s: Seq<char>) -> nat {
    encode_utf8(s).len()
}

// ---------------------------------------------------------------------------
// Trimming
// ---------------------------------------------------------------------------

pub open spec fn lead_ws(s: Seq<char>) -> nat
    decreases s.len(),
{
    if s.len() == 0 {
        0
    } else if is_ws(s[0]) {
        1 + lead_ws(s.drop_first())
    } else {
        0
    }
}

pub open spec fn trail_ws(s: Seq<char>) -> nat
    decreases s.len(),
{
    if s.len() == 0 {
        0
    } else if is_ws(s.last()) {
        1 + trail_ws(s.drop_last())
    } else {
        0
    }
}

/// `str::trim_start`.
pub open spec fn trim_start(s: Seq<char>) -> Seq<char> {
    s.skip(lead_ws(s) as int)
}

/// `str::trim_end`.
pub open spec fn trim_end(s: Seq<char>) -> Seq<char> {
    s.take(s.len() - trail_ws(s))
}

/// `str::trim`: surrounding Unicode whitespace removed.
pub open spec fn trim(s: Seq<char>) -> Seq<char> {
    trim_end(trim_start(s))
}

pub proof fn lemma_lead_ws(s: Seq<char>, a: int)
    requires
        0 <= a <= s.len(),
        forall|i: int| 0 <= i < a ==> is_ws(#[trigger] s[i]),
        a < s.len() ==> !is_ws(s[a]),
    ensures
        lead_ws(s) == a,
    decreases a,
{
    if a > 0 {
        let t = s.drop_first();
        assert forall|i: int| 0 <= i < a - 1 implies is_ws(#[trigger] t[i]) by {
            assert(t[i] == s[i + 1]);
        }
        lemma_lead_ws(t, a - 1);
    }
}

pub proof fn lemma_lead_ws_bound(s: Seq<char>)
    ensures
        lead_ws(s) <= s.len(),
        forall|i: int| 0 <= i < lead_ws(s) ==> is_ws(#[trigger] s[i]),
        lead_ws(s) < s.len() ==> !is_ws(s[lead_ws(s) as int]),
    decreases s.len(),
{
    if s.len() > 0 && is_ws(s[0]) {
        let t = s.drop_first();
        lemma_lead_ws_bound(t);
        assert forall|i: int| 0 <= i < lead_ws(s) implies is_ws(#[trigger] s[i]) by {
            if i > 0 {
                assert(s[i] == t[i - 1]);
            }
        }
        if lead_ws(s) < s.len() {
            assert(s[lead_ws(s) as int] == t[lead_ws(t) as int]);
        }
    }
}

pub proof fn lemma_trail_ws_bound(s: Seq<char>)
    ensures
        trail_ws(s) <= s.len(),
        forall|i: int| s.len() - trail_ws(s) <= i < s.len() ==> is_ws(#[trigger] s[i]),
        trail_ws(s) < s.len() ==> !is_ws(s[s.len() - trail_ws(s) - 1]),
    decreases s.len(),
{
    if s.len() > 0 && is_ws(s.last()) {
        let t = s.drop_last();
        lemma_trail_ws_bound(t);
        assert forall|i: int| s.len() - trail_ws(s) <= i < s.len() implies is_ws(#[trigger] s[i]) by {
            if i < s.len() - 1 {
                assert(s[i] == t[i]);
            }
        }
        if trail_ws(s) < s.len() {
            assert(s[s.len() - trail_ws(s) - 1] == t[t.len() - trail_ws(t) - 1]);
        }
    }
}

/// Trimming is idempotent.
pub proof fn lemma_trim_idem(s: Seq<char>)
    ensures
        trim(trim(s)) == trim(s),
{
    lemma_lead_ws_bound(s);
    let u = trim_start(s);
    lemma_trail_ws_bound(u);
    let t = trim(s);
    if t.len() > 0 {
        assert(t[0] == u[0]);
        assert(t.last() == u[u.len() - trail_ws(u) - 1]);
        assert(!is_ws(t[0]));
        assert(lead_ws(t) == 0);
        assert(trail_ws(t) == 0);
        assert(trim_start(t) =~= t);
        assert(trim_end(t) =~= t);
    } else {
        assert(trim_start(t) =~= t);
        assert(trim_end(t) =~= t);
    }
}

pub proof fn lemma_trail_ws(s: Seq<char>, b: int)
    requires
        0 <= b <= s.len(),
        forall|i: int| b <= i < s.len() ==> is_ws(#[trigger] s[i]),
        b > 0 ==> !is_ws(s[b - 1]),
    ensures
        trail_ws(s) == s.len() - b,
    decreases s.len() - b,
{
    if b < s.len() {
        let t = s.drop_last();
        assert forall|i: int| b <= i < t.len() implies is_ws(#[trigger] t[i]) by {
            assert(t[i] == s[i]);
        }
        assert(is_ws(s.last()));
        if b > 0 {
            assert(t[b - 1] == s[b - 1]);
        }
        lemma_trail_ws(t, b);
    }
}

/// The trimmed form of `s` is `s[a..b]` where `a` skips the leading
/// whitespace and `b` drops the trailing whitespace.
pub open spec fn trim_bounds(s: Seq<char>, a: int, b: int) -> bool {
    &&& 0 <= a <= b <= s.len()
    &&& forall|i: int| 0 <= i < a ==> is_ws(#[trigger] s[i])
    &&& forall|i: int| b <= i < s.len() ==> is_ws(#[trigger] s[i])
    &&& a < b ==> !is_ws(s[a]) && !is_ws(s[b - 1])
    &&& a == b ==> b == s.len()
}

pub proof fn lemma_trim_bounds(s: Seq<char>, a: int, b: int)
    requires
        trim_bounds(s, a, b),
    ensures
        trim(s) == s.subrange(a, b),
{
    if a < s.len() {
        assert(a < b);
    }
    lemma_lead_ws(s, a);
    let t = s.skip(a);
    assert(trim_start(s) == t);
    assert forall|i: int| b - a <= i < t.len() implies is_ws(#[trigger] t[i]) by {
        assert(t[i] == s[i + a]);
    }
    if b - a > 0 {
        assert(t[b - a - 1] == s[b - 1]);
    }
    lemma_trail_ws(t, b - a);
    assert(trim_end(t) =~= s.subrange(a, b));
}

pub fn is_whitespace(c: char) -> (r: bool)
    ensures
        r == is_ws(c),
{
    let u = c as u32;
    (0x09 <= u && u <= 0x0D) || u == 0x20 || u == 0x85 || u == 0xA0 || u == 0x1680 || (0x2000 <= u
        && u <= 0x200A) || u == 0x2028 || u == 0x2029 || u == 0x202F || u == 0x205F || u == 0x3000
}

pub fn is_ascii_whitespace(c: char) -> (r: bool)
    ensures
        r == is_ascii_ws(c),
{
    c == ' ' || c == '\t' || c == '\n' || c == '\x0C' || c == '\r'
}

/// Bounds `(a, b)` such that `v[a..b]` is the trimmed text.
pub fn trim_range(v: &[char]) -> (r: (usize, usize))
    ensures
        trim_bounds(v@, r.0 as int, r.1 as int),
        trim(v@) == v@.subrange(r.0 as int, r.1 as int),
{
    let n = v.len();
    let mut a: usize = 0;
    while a < n && is_whitespace(v[a])
        invariant
            a <= n,
            n == v@.len(),
            forall|i: int| 0 <= i < a ==> is_ws(#[trigger] v@[i]),
        decreases n - a,
    {
        a = a + 1;
    }
    let mut b: usize = n;
    while b > a && is_whitespace(v[b - 1])
        invariant
            a <= b <= n,
            n == v@.len(),
            forall|i: int| b <= i < n ==> is_ws(#[trigger] v@[i]),
        decreases b,
    {
        b = b - 1;
    }
    proof {
        if a == b && b < n {
            assert(is_ws(v@[b as int]));
        }
        lemma_trim_bounds(v@, a as int, b as int);
    }
    (a, b)
}

// ---------------------------------------------------------------------------
// Conversions between `str`/`String` and character vectors
// ---------------------------------------------------------------------------

/// The characters of `s`, in order.
pub fn chars_of(s: &str) -> (v: Vec<char>)
    ensures
        v@ == s@,
{
    let mut v: Vec<char> = Vec::new();
    for c in it: s.chars()
        invariant
            v@ == it.seq().take(it.index() as int),
    {
        v.push(c);
    }
    v
}

/// `String` holding exactly the characters `v`
/// (`Iterator::collect::<String>` over the characters).
#[verifier::external_body]
pub(crate) fn string_of(v: &[char]) -> (s: String)
    ensures
        s@ == v@,
{
    v.iter().collect::<String>()
}

/// `String` copy of a string slice.
pub fn owned(s: &str) -> (r: String)
    ensures
        r@ == s@,
{
    s.to_owned()
}

/// UTF-8 width of one character.
pub open spec fn char_width(c: char) -> nat {
    let u = c as u32;
    if u <= 0x7F {
        1
    } else if u <= 0x7FF {
        2
    } else if u <= 0xFFFF {
        3
    } else {
        4
    }
}

proof fn lemma_encode_scalar_len(c: char)
    ensures
        vstd::utf8::encode_scalar(c as u32).len() == char_width(c),
{
    vstd::utf8::char_is_scalar(c);
}

pub proof fn lemma_blen_push(s: Seq<char>, c: char)
    ensures
        blen(s.push(c)) == blen(s) + char_width(c),
    decreases s.len(),
{
    lemma_encode_scalar_len(c);
    if s.len() == 0 {
        assert(s.push(c).drop_first() =~= Seq::<char>::empty());
        assert(encode_utf8(Seq::<char>::empty()) =~= Seq::<u8>::empty());
    } else {
        let t = s.drop_first();
        assert(s.push(c).drop_first() =~= t.push(c));
        assert(s.push(c)[0] == s[0]);
        lemma_blen_push(t, c);
    }
}

pub proof fn lemma_blen_ge_len(s: Seq<char>)
    ensures
        blen(s) >= s.len(),
    decreases s.len(),
{
    if s.len() > 0 {
        lemma_blen_ge_len(s.drop_last());
        assert(s.drop_last().push(s.last()) =~= s);
        lemma_blen_push(s.drop_last(), s.last());
    }
}

pub fn char_width_of(c: char) -> (w: usize)
    ensures
        w == char_width(c),
{
    let u = c as u32;
    if u <= 0x7F {
        1
    } else if u <= 0x7FF {
        2
    } else if u <= 0xFFFF {
        3
    } else {
        4
    }
}

/// Whether the UTF-8 byte length of `v` exceeds `max`.
pub fn byte_len_exceeds(v: &[char], max: usize) -> (r: bool)
    ensures
        r == (blen(v@) > max),
{
    let mut total: usize = 0;
    let mut i: usize = 0;
    proof {
        assert(v@.take(0) =~= Seq::<char>::empty());
        assert(encode_utf8(Seq::<char>::empty()) =~= Seq::<u8>::empty());
    }
    while i < v.len()
        invariant
            i <= v@.len(),
            total <= max,
            total == blen(v@.take(i as int)),
        decreases v.len() - i,
    {
        let w = char_width_of(v[i]);
        proof {
            assert(v@.take(i as int).push(v@[i as int]) =~= v@.take(i + 1));
            lemma_blen_push(v@.take(i as int), v@[i as int]);
        }
        if w > max - total {
            proof {
                lemma_blen_prefix(v@, i + 1);
            }
            return true;
        }
        total = total + w;
        i = i + 1;
    }
    proof {
        assert(v@.take(i as int) =~= v@);
    }
    false
}

proof fn lemma_blen_prefix(s: Seq<char>, k: int)
    requires
        0 <= k <= s.len(),
    ensures
        blen(s.take(k)) <= blen(s),
    decreases s.len() - k,
{
    if k < s.len() {
        let t = s.drop_last();
        assert(s.take(k) =~= t.take(k));
        lemma_blen_prefix(t, k);
        assert(t.push(s.last()) =~= s);
        lemma_blen_push(t, s.last());
    } else {
        assert(s.take(k) =~= s);
    }
}

/// Characters `v[a..b]` as a fresh vector.
pub fn slice_vec(v: &[char], a: usize, b: usize) -> (r: Vec<char>)
    requires
        a <= b <= v@.len(),
    ensures
        r@ == v@.subrange(a as int, b as int),
{
    let mut r: Vec<char> = Vec::new();
    let mut i = a;
    while i < b
        invariant
            a <= i <= b,
            b <= v@.len(),
            r@ == v@.subrange(a as int, i as int),
        decreases b - i,
    {
        r.push(v[i]);
        i = i + 1;
    }
    r
}

/// `String` of `v[a..b]`.
pub fn substring(v: &[char], a: usize, b: usize) -> (s: String)
    requires
        a <= b <= v@.len(),
    ensures
        s@ == v@.subrange(a as int, b as int),
{
    let r = slice_vec(v, a, b);
    string_of(r.as_slice())
}

/// Concatenation of two strings.
pub fn concat2(a: &str, b: &str) -> (s: String)
    ensures
        s@ == a@ + b@,
{
    let mut v = chars_of(a);
    let w = chars_of(b);
    let mut i: usize = 0;
    let ghost v0 = v@;
    while i < w.len()
        invariant
            i <= w@.len(),
            v@ == v0 + w@.take(i as int),
        decreases w.len() - i,
    {
        v.push(w[i]);
        i = i + 1;
    }
    string_of(v.as_slice())
}

// ---------------------------------------------------------------------------
// Comparisons and searches
// ---------------------------------------------------------------------------

pub fn lower_char(c: char) -> (r: char)
    ensures
        r == lower(c),
{
    if 'A' <= c && c <= 'Z' {
        let u = ((c as u32) + 32) as u8;
        u as char
    } else {
        c
    }
}

pub fn eq_ignore_case(a: &[char], b: &[char]) -> (r: bool)
    ensures
        r == eq_ic(a@, b@),
{
    if a.len() != b.len() {
        return false;
    }
    let mut i: usize = 0;
    while i < a.len()
        invariant
            i <= a@.len(),
            a@.len() == b@.len(),
            forall|k: int| 0 <= k < i ==> lower(#[trigger] a@[k]) == lower(b@[k]),
        decreases a.len() - i,
    {
        if lower_char(a[i]) != lower_char(b[i]) {
            return false;
        }
        i = i + 1;
    }
    true
}

pub fn str_eq_ignore_case(a: &str, b: &str) -> (r: bool)
    ensures
        r == eq_ic(a@, b@),
{
    let va = chars_of(a);
    let vb = chars_of(b);
    eq_ignore_case(va.as_slice(), vb.as_slice())
}

pub fn chars_eq(a: &[char], b: &[char]) -> (r: bool)
    ensures
        r == (a@ == b@),
{
    if a.len() != b.len() {
        return false;
    }
    let mut i: usize = 0;
    while i < a.len()
        invariant
            i <= a@.len(),
            a@.len() == b@.len(),
            forall|k: int| 0 <= k < i ==> a@[k] == b@[k],
        decreases a.len() - i,
    {
        if a[i] != b[i] {
            return false;
        }
        i = i + 1;
    }
    proof {
        assert(a@ =~= b@);
    }
    true
}

pub fn str_eq(a: &str, b: &str) -> (r: bool)
    ensures
        r == (a@ == b@),
{
    let va = chars_of(a);
    let vb = chars_of(b);
    chars_eq(va.as_slice(), vb.as_slice())
}

pub fn has_char(v: &[char], c: char) -> (r: bool)
    ensures
        r == v@.contains(c),
{
    let mut i: usize = 0;
    while i < v.len()
        invariant
            i <= v@.len(),
            forall|k: int| 0 <= k < i ==> v@[k] != c,
        decreases v.len() - i,
    {
        if v[i] == c {
            return true;
        }
        i = i + 1;
    }
    false
}

pub fn is_ascii(v: &[char]) -> (r: bool)
    ensures
        r == is_ascii_seq(v@),
{
    let mut i: usize = 0;
    while i < v.len()
        invariant
            i <= v@.len(),
            forall|k: int| 0 <= k < i ==> is_ascii_char(#[trigger] v@[k]),
        decreases v.len() - i,
    {
        if (v[i] as u32) >= 128 {
            return false;
        }
        i = i + 1;
    }
    true
}

pub fn starts_with_at(v: &[char], p: &[char]) -> (r: bool)
    ensures
        r == starts_with(v@, p@),
{
    if p.len() > v.len() {
        return false;
    }
    let mut i: usize = 0;
    while i < p.len()
        invariant
            i <= p@.len() <= v@.len(),
            forall|k: int| 0 <= k < i ==> v@[k] == p@[k],
        decreases p.len() - i,
    {
        if v[i] != p[i] {
            proof {
                assert(v@.take(p@.len() as int)[i as int] != p@[i as int]);
            }
            return false;
        }
        i = i + 1;
    }
    proof {
        assert(v@.take(p@.len() as int) =~= p@);
    }
    true
}

/// Index of the first occurrence of `c` in `v`.
pub open spec fn first_index_spec(s: Seq<char>, c: char, i: int) -> bool {
    0 <= i < s.len() && s[i] == c && forall|k: int| 0 <= k < i ==> s[k] != c
}

pub fn find_char(v: &[char], c: char) -> (r: Option<usize>)
    ensures
        r matches Some(i) ==> first_index_spec(v@, c, i as int),
        r is None ==> !v@.contains(c),
{
    let mut i: usize = 0;
    while i < v.len()
        invariant
            i <= v@.len(),
            forall|k: int| 0 <= k < i ==> v@[k] != c,
        decreases v.len() - i,
    {
        if v[i] == c {
            return Some(i);
        }
        i = i + 1;
    }
    None
}

// ---------------------------------------------------------------------------
// Unsigned integer parsing (`u32::from_str_radix`, `str::parse::<u32>`)
// ---------------------------------------------------------------------------

pub open spec fn digit_value(c: char, radix: nat) -> Option<nat> {
    let u = c as u32;
    if '0' <= c && c <= '9' && ((u - 48) as nat) < radix {
        Some((u - 48) as nat)
    } else if 'a' <= c && c <= 'z' && ((u - 87) as nat) < radix {
        Some((u - 87) as nat)
    } else if 'A' <= c && c <= 'Z' && ((u - 55) as nat) < radix {
        Some((u - 55) as nat)
    } else {
        None
    }
}

pub open spec fn all_digits(s: Seq<char>, radix: nat) -> bool {
    forall|i: int| 0 <= i < s.len() ==> (#[trigger] digit_value(s[i], radix)) is Some
}

pub open spec fn digits_value(s: Seq<char>, radix: nat) -> nat
    decreases s.len(),
{
    if s.len() == 0 {
        0
    } else {
        digits_value(s.drop_last(), radix) * radix + match digit_value(s.last(), radix) {
            Some(d) => d,
            None => 0,
        }
    }
}

/// The digit run of an unsigned number: an optional leading `+` is dropped.
pub open spec fn unsigned_digits(s: Seq<char>) -> Seq<char> {
    if s.len() > 0 && s[0] == '+' {
        s.drop_first()
    } else {
        s
    }
}

/// What `u32::from_str_radix(s, radix)` returns (`None` for its errors).
pub open spec fn parse_u32_spec(s: Seq<char>, radix: nat) -> Option<u32> {
    let d = unsigned_digits(s);
    if d.len() == 0 || !all_digits(d, radix) || digits_value(d, radix) > u32::MAX {
        None
    } else {
        Some(digits_value(d, radix) as u32)
    }
}

proof fn lemma_digits_monotone(s: Seq<char>, radix: nat, k: int)
    requires
        radix >= 2,
        0 <= k <= s.len(),
    ensures
        digits_value(s.take(k), radix) <= digits_value(s, radix),
    decreases s.len() - k,
{
    if k < s.len() {
        let t = s.drop_last();
        assert(s.take(k) =~= t.take(k));
        lemma_digits_monotone(t, radix, k);
        assert(digits_value(t, radix) <= digits_value(t, radix) * radix) by (nonlinear_arith)
            requires
                radix >= 2,
        ;
    } else {
        assert(s.take(k) =~= s);
    }
}

pub fn parse_u32_radix(v: &[char], radix: u32) -> (r: Option<u32>)
    requires
        2 <= radix <= 36,
    ensures
        r == parse_u32_spec(v@, radix as nat),
{
    let mut start: usize = 0;
    if v.len() > 0 && v[0] == '+' {
        start = 1;
    }
    let ghost d = unsigned_digits(v@);
    proof {
        assert(d =~= v@.skip(start as int));
    }
    if start == v.len() {
        return None;
    }
    let mut acc: u64 = 0;
    let mut i: usize = start;
    while i < v.len()
        invariant
            start <= i <= v@.len(),
            d == v@.skip(start as int),
            d == unsigned_digits(v@),
            2 <= radix <= 36,
            acc as nat == digits_value(d.take(i - start), radix as nat),
            acc <= u32::MAX,
            all_digits(d.take(i - start), radix as nat),
        decreases v.len() - i,
    {
        let c = v[i];
        let u = c as u32;
        let dv: u32;
        if '0' <= c && c <= '9' && u - 48 < radix {
            dv = u - 48;
        } else if 'a' <= c && c <= 'z' && u - 87 < radix {
            dv = u - 87;
        } else if 'A' <= c && c <= 'Z' && u - 55 < radix {
            dv = u - 55;
        } else {
            proof {
                assert(d[i - start] == c);
                assert(u == c as u32);
                assert(digit_value(c, radix as nat) is None);
                assert(digit_value(d[i - start], radix as nat) is None);
                assert(!all_digits(d, radix as nat));
            }
            return None;
        }
        let ghost prefix = d.take(i - start + 1);
        proof {
            assert(prefix.drop_last() =~= d.take(i - start));
            assert(prefix.last() == c);
            assert(digit_value(c, radix as nat) == Some(dv as nat));
            assert(all_digits(prefix, radix as nat)) by {
                assert forall|k: int| 0 <= k < prefix.len() implies (#[trigger] digit_value(
                    prefix[k],
                    radix as nat,
                )) is Some by {
                    if k < prefix.len() - 1 {
                        assert(prefix[k] == d.take(i - start)[k]);
                    }
                }
            }
        }
        proof {
            assert(acc * radix <= 0xFFFF_FFFFu64 * 36) by (nonlinear_arith)
                requires
                    acc <= 0xFFFF_FFFFu64,
                    radix <= 36,
            ;
        }
        let next: u64 = acc * (radix as u64) + (dv as u64);
        proof {
            assert(next as nat == digits_value(prefix, radix as nat));
        }
        if next > 0xFFFF_FFFFu64 {
            proof {
                lemma_digits_monotone(d, radix as nat, i - start + 1);
                assert(digits_value(d, radix as nat) > u32::MAX);
                assert(d.len() > 0);
                assert(d == unsigned_digits(v@));
                assert(d.len() == 0 || !all_digits(d, radix as nat) || digits_value(d, radix as nat) > u32::MAX);
                assert(parse_u32_spec(v@, radix as nat) is None);
            }
            return None;
        }
        acc = next;
        i = i + 1;
    }
    proof {
        assert(d.take(i - start) =~= d);
    }
    Some(acc as u32)
}

/// `str::parse::<u32>()`.
pub fn parse_decimal_u32(v: &[char]) -> (r: Option<u32>)
    ensures
        r == parse_u32_spec(v@, 10),
{
    parse_u32_radix(v, 10)
}

// ---------------------------------------------------------------------------
// Decimal rendering (`ToString` / `{}` of an unsigned integer)
// ---------------------------------------------------------------------------

pub open spec fn dec_digit_char(d: nat) -> char {
    ((d + 48) as u32) as char
}

/// Decimal spelling of `n`, without leading zeros (`"0"` for zero).
pub open spec fn dec(n: nat) -> Seq<char>
    decreases n,
{
    if n < 10 {
        seq![dec_digit_char(n)]
    } else {
        dec(n / 10).push(dec_digit_char(n % 10))
    }
}

pub fn dec_u64(n: u64) -> (s: String)
    ensures
        s@ == dec(n as nat),
{
    let mut digits: Vec<char> = Vec::new();
    let mut m = n;
    // digits holds the decimal spelling of n % 10^k in reverse, for the
    // k digits already produced; rebuilt front to back below.
    let ghost mut done: Seq<char> = Seq::empty();
    let mut rev: Vec<char> = Vec::new();
    while m >= 10
        invariant
            m <= n,
            dec(n as nat) == dec(m as nat) + done,
            rev@.len() == done.len(),
            forall|k: int| 0 <= k < done.len() ==> rev@[k] == done[done.len() - 1 - k],
        decreases m,
    {
        let c = (((m % 10) as u8) + 48) as char;
        rev.push(c);
        proof {
            assert(dec(m as nat) == dec((m / 10) as nat).push(c));
            assert(dec(m as nat) + done =~= dec((m / 10) as nat) + (seq![c] + done));
            done = seq![c] + done;
        }
        m = m / 10;
    }
    let c = ((m as u8) + 48) as char;
    rev.push(c);
    proof {
        assert(dec(m as nat) == seq![c]);
        done = seq![c] + done;
    }
    let mut i: usize = rev.len();
    while i > 0
        invariant
            i <= rev@.len(),
            rev@.len() == done.len(),
            forall|k: int| 0 <= k < done.len() ==> rev@[k] == done[done.len() - 1 - k],
            digits@ == done.take(rev@.len() - i),
        decreases i,
    {
        i = i - 1;
        digits.push(rev[i]);
        proof {
            assert(digits@ =~= done.take(rev@.len() - i));
        }
    }
    proof {
        assert(done.take(rev@.len() as int) =~= done);
        assert(dec(n as nat) == done);
    }
    string_of(digits.as_slice())
}

// ---------------------------------------------------------------------------
// Splitting (`str::split` on one character)
// ---------------------------------------------------------------------------

/// Index of the first `c` in `s`, or `s.len()` when there is none.
pub open spec fn first_idx(s: Seq<char>, c: char) -> nat
    decreases s.len(),
{
    if s.len() == 0 {
        0
    } else if s[0] == c {
        0
    } else {
        1 + first_idx(s.drop_first(), c)
    }
}

/// `s.split(c)`: the pieces between occurrences of `c` (always at least one).
pub open spec fn split_char(s: Seq<char>, c: char) -> Seq<Seq<char>>
    decreases s.len(),
{
    if first_idx(s, c) < s.len() {
        seq![s.take(first_idx(s, c) as int)] + split_char(s.skip(first_idx(s, c) + 1 as int), c)
    } else {
        seq![s]
    }
}

pub proof fn lemma_first_idx(s: Seq<char>, c: char, i: int)
    requires
        0 <= i <= s.len(),
        forall|k: int| 0 <= k < i ==> s[k] != c,
        i < s.len() ==> s[i] == c,
    ensures
        first_idx(s, c) == i,
    decreases i,
{
    if i > 0 {
        let t = s.drop_first();
        assert forall|k: int| 0 <= k < i - 1 implies t[k] != c by {
            assert(t[k] == s[k + 1]);
        }
        if i < s.len() {
            assert(t[i - 1] == s[i]);
        }
        lemma_first_idx(t, c, i - 1);
    }
}

/// Splitting at a known first occurrence.
pub proof fn lemma_split_at(s: Seq<char>, c: char, i: int)
    requires
        0 <= i < s.len(),
        forall|k: int| 0 <= k < i ==> s[k] != c,
        s[i] == c,
    ensures
        split_char(s, c) == seq![s.take(i)] + split_char(s.skip(i + 1), c),
{
    lemma_first_idx(s, c, i);
}

pub proof fn lemma_split_none(s: Seq<char>, c: char)
    requires
        forall|k: int| 0 <= k < s.len() ==> s[k] != c,
    ensures
        split_char(s, c) == seq![s],
{
    lemma_first_idx(s, c, s.len() as int);
}

/// The character views of a vector of character vectors.
pub open spec fn pieces(r: Seq<Vec<char>>) -> Seq<Seq<char>> {
    r.map_values(|x: Vec<char>| x@)
}

/// `v.split(c)` as owned pieces.
pub fn split_vec(v: &[char], c: char) -> (r: Vec<Vec<char>>)
    ensures
        pieces(r@) == split_char(v@, c),
{
    let mut r: Vec<Vec<char>> = Vec::new();
    let mut start: usize = 0;
    let mut i: usize = 0;
    let mut cur: Vec<char> = Vec::new();
    proof {
        assert(pieces(r@) =~= Seq::<Seq<char>>::empty());
        assert(v@.skip(0) =~= v@);
        assert(cur@ =~= v@.subrange(0, 0));
    }
    while i < v.len()
        invariant
            start <= i <= v@.len(),
            cur@ == v@.subrange(start as int, i as int),
            forall|k: int| start <= k < i ==> v@[k] != c,
            split_char(v@, c) == pieces(r@) + split_char(v@.skip(start as int), c),
        decreases v.len() - i,
    {
        if v[i] == c {
            proof {
                let t = v@.skip(start as int);
                assert forall|k: int| 0 <= k < i - start implies t[k] != c by {
                    assert(t[k] == v@[k + start]);
                }
                lemma_split_at(t, c, i - start);
                assert(t.take(i - start) =~= cur@);
                assert(t.skip(i - start + 1) =~= v@.skip(i + 1));
            }
            let ghost old_r = pieces(r@);
            r.push(cur);
            proof {
                assert(pieces(r@) =~= old_r.push(v@.subrange(start as int, i as int)));
                assert(split_char(v@, c) =~= pieces(r@) + split_char(v@.skip(i + 1), c));
            }
            cur = Vec::new();
            start = i + 1;
            proof {
                assert(cur@ =~= v@.subrange(start as int, start as int));
            }
        } else {
            cur.push(v[i]);
        }
        i = i + 1;
    }
    proof {
        let t = v@.skip(start as int);
        assert forall|k: int| 0 <= k < t.len() implies t[k] != c by {
            assert(t[k] == v@[k + start]);
        }
        lemma_split_none(t, c);
        assert(t =~= cur@);
    }
    let ghost old_r = pieces(r@);
    r.push(cur);
    proof {
        assert(pieces(r@) =~= old_r.push(cur@));
    }
    r
}

/// `s.split(c).next()`: the text before the first `c` (all of `s` when none).
pub open spec fn before_first(s: Seq<char>, c: char) -> Seq<char> {
    s.take(first_idx(s, c) as int)
}

pub proof fn lemma_first_idx_bound(s: Seq<char>, c: char)
    ensures
        first_idx(s, c) <= s.len(),
        forall|k: int| 0 <= k < first_idx(s, c) ==> s[k] != c,
        first_idx(s, c) < s.len() ==> s[first_idx(s, c) as int] == c,
    decreases s.len(),
{
    if s.len() > 0 && s[0] != c {
        let t = s.drop_first();
        lemma_first_idx_bound(t, c);
        assert forall|k: int| 0 <= k < first_idx(s, c) implies s[k] != c by {
            if k > 0 {
                assert(s[k] == t[k - 1]);
            }
        }
    }
}

pub proof fn lemma_split_first(s: Seq<char>, c: char)
    ensures
        split_char(s, c).len() >= 1,
        split_char(s, c)[0] == before_first(s, c),
{
    lemma_first_idx_bound(s, c);
    if first_idx(s, c) >= s.len() {
        assert(s.take(s.len() as int) =~= s);
    }
}

pub fn before_first_vec(v: &[char], c: char) -> (r: Vec<char>)
    ensures
        r@ == before_first(v@, c),
{
    let mut i: usize = 0;
    while i < v.len() && v[i] != c
        invariant
            i <= v@.len(),
            forall|k: int| 0 <= k < i ==> v@[k] != c,
        decreases v.len() - i,
    {
        i = i + 1;
    }
    proof {
        lemma_first_idx(v@, c, i as int);
    }
    slice_vec(v, 0, i)
}

// ---------------------------------------------------------------------------
// Lines (`str::lines`)
// ---------------------------------------------------------------------------

/// One trailing carriage return removed, if there is one.
pub open spec fn strip_cr(s: Seq<char>) -> Seq<char> {
    if s.len() > 0 && s.last() == '\r' {
        s.drop_last()
    } else {
        s
    }
}

/// `str::lines`: the text split after each `\n`; a line that ended in `\n`
/// loses it and then one `\r` before it; a last line without `\n` is kept
/// as it is, and an empty one is not produced.
pub open spec fn lines(s: Seq<char>) -> Seq<Seq<char>> {
    let p = split_char(s, '\n');
    let body = p.take(p.len() - 1).map_values(|x: Seq<char>| strip_cr(x));
    if p.last().len() == 0 {
        body
    } else {
        body.push(p.last())
    }
}

/// The lines of `v` as `str::lines` yields them.
pub fn lines_vec(v: &[char]) -> (r: Vec<Vec<char>>)
    ensures
        pieces(r@) == lines(v@),
{
    let ps = split_vec(v, '\n');
    proof {
        lemma_split_first(v@, '\n');
    }
    let n = ps.len();
    let ghost p = split_char(v@, '\n');
    let mut out: Vec<Vec<char>> = Vec::new();
    let mut i: usize = 0;
    while i + 1 < n
        invariant
            1 <= n == ps@.len() == p.len(),
            pieces(ps@) == p,
            i + 1 <= n,
            pieces(out@) == p.take(i as int).map_values(|x: Seq<char>| strip_cr(x)),
        decreases n - i,
    {
        let q = &ps[i];
        proof {
            assert(q@ == p[i as int]);
        }
        let ghost before = pieces(out@);
        if q.len() > 0 && q[q.len() - 1] == '\r' {
            out.push(slice_vec(q.as_slice(), 0, q.len() - 1));
        } else {
            out.push(slice_vec(q.as_slice(), 0, q.len()));
        }
        proof {
            assert(q@.subrange(0, q@.len() as int) =~= q@);
            assert(q@.subrange(0, q@.len() - 1) =~= q@.drop_last());
            assert(pieces(out@) =~= before.push(strip_cr(p[i as int])));
            assert(p.take(i + 1).map_values(|x: Seq<char>| strip_cr(x)) =~= p.take(
                i as int,
            ).map_values(|x: Seq<char>| strip_cr(x)).push(strip_cr(p[i as int])));
        }
        i = i + 1;
    }
    let last = &ps[n - 1];
    proof {
        assert(last@ == p.last());
    }
    if last.len() > 0 {
        let ghost before = pieces(out@);
        out.push(slice_vec(last.as_slice(), 0, last.len()));
        proof {
            assert(last@.subrange(0, last@.len() as int) =~= last@);
            assert(pieces(out@) =~= before.push(p.last()));
        }
    }
    out
}

/// Append the characters of `s` to `v`.
pub fn append_str(v: &mut Vec<char>, s: &str)
    ensures
        final(v)@ == old(v)@ + s@,
{
    let w = chars_of(s);
    let mut i: usize = 0;
    let ghost v0 = v@;
    while i < w.len()
        invariant
            i <= w@.len(),
            w@ == s@,
            v@ == v0 + w@.take(i as int),
        decreases w.len() - i,
    {
        v.push(w[i]);
        proof {
            assert(w@.take(i + 1) =~= w@.take(i as int).push(w@[i as int]));
        }
        i = i + 1;
    }
    proof {
        assert(w@.take(w@.len() as int) =~= w@);
    }
}

/// Append the characters of `s` to `v`.
pub fn append_chars(v: &mut Vec<char>, s: &[char])
    ensures
        final(v)@ == old(v)@ + s@,
{
    let mut i: usize = 0;
    let ghost v0 = v@;
    while i < s.len()
        invariant
            i <= s@.len(),
            v@ == v0 + s@.take(i as int),
        decreases s.len() - i,
    {
        v.push(s[i]);
        proof {
            assert(s@.take(i + 1) =~= s@.take(i as int).push(s@[i as int]));
        }
        i = i + 1;
    }
    proof {
        assert(s@.take(s@.len() as int) =~= s@);
    }
}

/// Whether `p` occurs in `v` as a contiguous run (`str::contains`).
pub fn contains_chars(v: &[char], p: &[char]) -> (r: bool)
    ensures
        r == contains_seq(v@, p@),
{
    if p.len() > v.len() {
        return false;
    }
    let mut i: usize = 0;
    let last = v.len() - p.len();
    while i <= last
        invariant
            p@.len() <= v@.len(),
            last == v@.len() - p@.len(),
            i <= last + 1,
            forall|k: int| 0 <= k < i ==> #[trigger] v@.subrange(k, k + p@.len()) != p@,
        decreases v.len() - i,
    {
        let mut j: usize = 0;
        let mut same = true;
        while j < p.len()
            invariant
                i + p@.len() <= v@.len(),
                v@.len() == v.len(),
                j <= p@.len(),
                same == (forall|k: int| 0 <= k < j ==> v@[i + k] == p@[k]),
            decreases p.len() - j,
        {
            if v[i + j] != p[j] {
                same = false;
            }
            j = j + 1;
        }
        if same {
            proof {
                assert(v@.subrange(i as int, i + p@.len()) =~= p@);
            }
            return true;
        }
        proof {
            let k0 = choose|k: int| 0 <= k < p@.len() && v@[i + k] != p@[k];
            assert(v@.subrange(i as int, i + p@.len())[k0] != p@[k0]);
        }
        i = i + 1;
    }
    proof {
        assert forall|k: int| 0 <= k && k + p@.len() <= v@.len() implies #[trigger] v@.subrange(
            k,
            k + p@.len(),
        ) != p@ by {
            assert(k < i);
        }
    }
    false
}

/// Whether `needle` occurs in `hay` (`str::contains` with a `&str`).
pub fn str_contains(hay: &str, needle: &str) -> (r: bool)
    ensures
        r == contains_seq(hay@, needle@),
{
    let h = chars_of(hay);
    let n = chars_of(needle);
    contains_chars(h.as_slice(), n.as_slice())
}

/// The character views of an optional string.
pub open spec fn opt_str_view(o: Option<String>) -> Option<Seq<char>> {
    match o {
        Some(s) => Some(s@),
        None => None,
    }
}

/// Text ending in the separator splits into pieces the last of which is
/// empty.
pub proof fn lemma_split_last_empty(s: Seq<char>, c: char)
    requires
        s.len() > 0,
        s.last() == c,
    ensures
        split_char(s, c).last().len() == 0,
    decreases s.len(),
{
    lemma_first_idx_bound(s, c);
    let f = first_idx(s, c);
    assert(f < s.len());
    let rest = s.skip(f + 1int);
    if rest.len() > 0 {
        assert(rest.last() == s.last());
        lemma_split_last_empty(rest, c);
    } else {
        lemma_split_none(rest, c);
    }
}

} // verus!
