//! Character-level text helpers shared by the SQL builders, the guardrail and
//! the cache: Unicode whitespace trimming, decimal and hexadecimal rendering,
//! and SQL quoting.

use vstd::prelude::*;
use vstd::string::*;

verus! {

/// `String::push`: the contract claims that the string's characters become
/// the old ones followed by `c`.
#[verifier::external_body]
pub(crate) fn push_char(s: &mut String, c: char)
    ensures
        final(s)@ == old(s)@.push(c),
{
    s.push(c);
}

/// A character with the Unicode `White_Space` property, the set that
/// `char::is_whitespace` (and therefore `str::trim`) recognises.
pub open spec fn is_white_space(c: char) -> bool {
    let u = c as u32;
    ||| 0x9 <= u <= 0xd
    ||| u == 0x20
    ||| u == 0x85
    ||| u == 0xa0
    ||| u == 0x1680
    ||| 0x2000 <= u <= 0x200a
    ||| u == 0x2028
    ||| u == 0x2029
    ||| u == 0x202f
    ||| u == 0x205f
    ||| u == 0x3000
}

pub fn white_space(c: char) -> (r: bool)
    ensures
        r == is_white_space(c),
{
    let u = c as u32;
    (0x9 <= u && u <= 0xd) || u == 0x20 || u == 0x85 || u == 0xa0 || u == 0x1680 || (0x2000 <= u
        && u <= 0x200a) || u == 0x2028 || u == 0x2029 || u == 0x202f || u == 0x205f || u == 0x3000
}

/// Index of the first non-whitespace character at or after `i`.
pub open spec fn trim_start_index(s: Seq<char>, i: int) -> int
    decreases s.len() - i,
{
    if 0 <= i < s.len() && is_white_space(s[i]) {
        trim_start_index(s, i + 1)
    } else {
        i
    }
}

/// One past the last non-whitespace character at or before `j - 1`.
pub open spec fn trim_end_index(s: Seq<char>, j: int) -> int
    decreases j,
{
    if 0 < j <= s.len() && is_white_space(s[j - 1]) {
        trim_end_index(s, j - 1)
    } else {
        j
    }
}

proof fn lemma_trim_end_bounded(s: Seq<char>, j: int)
    requires
        0 <= j <= s.len(),
    ensures
        0 <= trim_end_index(s, j) <= j,
    decreases j,
{
    if 0 < j && is_white_space(s[j - 1]) {
        lemma_trim_end_bounded(s, j - 1);
    }
}

/// `s` without leading and trailing whitespace (what `str::trim` returns).
pub open spec fn trim(s: Seq<char>) -> Seq<char> {
    let a = trim_start_index(s, 0);
    let b = trim_end_index(s, s.len() as int);
    if a < b {
        s.subrange(a, b)
    } else {
        Seq::empty()
    }
}

proof fn lemma_trim_start_stops(s: Seq<char>, i: int)
    requires
        0 <= i <= s.len(),
    ensures
        i <= trim_start_index(s, i) <= s.len(),
        trim_start_index(s, i) < s.len() ==> !is_white_space(s[trim_start_index(s, i)]),
    decreases s.len() - i,
{
    if i < s.len() && is_white_space(s[i]) {
        lemma_trim_start_stops(s, i + 1);
    }
}

proof fn lemma_trim_end_stops(s: Seq<char>, j: int)
    requires
        0 <= j <= s.len(),
    ensures
        0 <= trim_end_index(s, j) <= j,
        trim_end_index(s, j) > 0 ==> !is_white_space(s[trim_end_index(s, j) - 1]),
    decreases j,
{
    if 0 < j && is_white_space(s[j - 1]) {
        lemma_trim_end_stops(s, j - 1);
    }
}

/// Trimming twice gives what trimming once gives.
pub proof fn lemma_trim_idempotent(s: Seq<char>)
    ensures
        trim(trim(s)) == trim(s),
{
    let t = trim(s);
    lemma_trim_start_stops(s, 0);
    lemma_trim_end_stops(s, s.len() as int);
    lemma_trim_start_stops(t, 0);
    lemma_trim_end_stops(t, t.len() as int);
    if t.len() > 0 {
        assert(!is_white_space(t[0]));
        assert(!is_white_space(t[t.len() - 1]));
        assert(trim_start_index(t, 0) == 0);
        assert(trim_end_index(t, t.len() as int) == t.len());
        assert(trim(t) =~= t);
    } else {
        assert(trim(t) =~= t);
    }
}

/// Removes leading and trailing Unicode whitespace.
pub fn trim_str(s: &str) -> (r: &str)
    ensures
        r@ == trim(s@),
{
    let n = s.unicode_len();
    let mut i: usize = 0;
    while i < n && white_space(s.get_char(i))
        invariant
            n == s@.len(),
            i <= n,
            trim_start_index(s@, 0) == trim_start_index(s@, i as int),
        decreases n - i,
    {
        i = i + 1;
    }
    if i == n {
        proof {
            lemma_trim_end_bounded(s@, n as int);
        }
        return s.substring_char(0, 0);
    }
    let mut j: usize = n;
    while j > i + 1 && white_space(s.get_char(j - 1))
        invariant
            n == s@.len(),
            i < j <= n,
            !is_white_space(s@[i as int]),
            trim_start_index(s@, 0) == i,
            trim_end_index(s@, n as int) == trim_end_index(s@, j as int),
        decreases j,
    {
        j = j - 1;
    }
    assert(trim_end_index(s@, j as int) == j);
    s.substring_char(i, j)
}

/// The ASCII digit for `d` in base 16, lower case (`0`-`9`, `a`-`f`).
pub open spec fn digit_char(d: nat) -> char {
    if d < 10 {
        (48 + d) as char
    } else {
        (87 + d) as char
    }
}

fn digit(d: u8) -> (c: char)
    requires
        d < 16,
    ensures
        c == digit_char(d as nat),
{
    if d < 10 {
        (48 + d) as char
    } else {
        (87 + d) as char
    }
}

/// Decimal rendering of a natural number, most significant digit first,
/// without sign or leading zeros (what `Display` prints for an unsigned integer).
pub open spec fn decimal(n: nat) -> Seq<char>
    decreases n,
{
    if n < 10 {
        seq![digit_char(n)]
    } else {
        decimal(n / 10).push(digit_char(n % 10))
    }
}

pub proof fn lemma_decimal_len(n: nat)
    ensures
        decimal(n).len() >= 1,
        n >= 10 ==> decimal(n).len() >= 2,
    decreases n,
{
    if n >= 10 {
        lemma_decimal_len(n / 10);
    }
}

/// Distinct numbers have distinct decimal renderings.
pub proof fn lemma_decimal_injective(a: nat, b: nat)
    requires
        decimal(a) == decimal(b),
    ensures
        a == b,
    decreases a + b,
{
    lemma_decimal_len(a);
    lemma_decimal_len(b);
    let da = decimal(a);
    let db = decimal(b);
    assert(da.last() == digit_char(a % 10));
    assert(db.last() == digit_char(b % 10));
    assert(a % 10 == b % 10);
    if a >= 10 && b >= 10 {
        assert(decimal(a / 10) == da.drop_last());
        assert(decimal(b / 10) == db.drop_last());
        lemma_decimal_injective(a / 10, b / 10);
    }
}

/// Appends the decimal rendering of `n`.
pub fn push_decimal(s: &mut String, n: u128)
    ensures
        final(s)@ == old(s)@ + decimal(n as nat),
    decreases n,
{
    if n >= 10 {
        push_decimal(s, n / 10);
    }
    let d = (n % 10) as u8;
    push_char(s, digit(d));
    assert(final(s)@ =~= old(s)@ + decimal(n as nat)) by {
        if n >= 10 {
            assert(old(s)@ + decimal(n as nat) =~= old(s)@ + decimal((n / 10) as nat) + seq![
                digit_char((n % 10) as nat),
            ]);
        }
    }
}

/// The decimal rendering of `n` as a new string.
pub fn decimal_string(n: u128) -> (r: String)
    ensures
        r@ == decimal(n as nat),
{
    let mut s = String::new();
    push_decimal(&mut s, n);
    assert(s@ =~= decimal(n as nat));
    s
}

/// Two lower-case hexadecimal digits for one byte (`{:02x}`).
pub open spec fn hex_byte(b: u8) -> Seq<char> {
    seq![digit_char((b / 16) as nat), digit_char((b % 16) as nat)]
}

/// Lower-case hexadecimal rendering of a byte sequence, two digits per byte.
pub open spec fn hex(bytes: Seq<u8>) -> Seq<char>
    decreases bytes.len(),
{
    if bytes.len() == 0 {
        Seq::empty()
    } else {
        hex(bytes.drop_last()) + hex_byte(bytes.last())
    }
}

/// A lower-case hexadecimal digit: `0`-`9` or `a`-`f`.
pub open spec fn is_lower_hex_digit(c: char) -> bool {
    ('0' <= c <= '9') || ('a' <= c <= 'f')
}

/// The hexadecimal rendering has two lower-case hexadecimal digits per byte.
pub proof fn lemma_hex_shape(bytes: Seq<u8>)
    ensures
        hex(bytes).len() == 2 * bytes.len(),
        forall|k: int| 0 <= k < hex(bytes).len() ==> is_lower_hex_digit(#[trigger] hex(bytes)[k]),
    decreases bytes.len(),
{
    if bytes.len() > 0 {
        lemma_hex_shape(bytes.drop_last());
        let b = bytes.last();
        let hi = (b / 16) as nat;
        let lo = (b % 16) as nat;
        assert(is_lower_hex_digit(digit_char(hi)));
        assert(is_lower_hex_digit(digit_char(lo)));
        let h = hex(bytes);
        let r = hex(bytes.drop_last());
        assert forall|k: int| 0 <= k < h.len() implies is_lower_hex_digit(#[trigger] h[k]) by {
            if k < r.len() {
                assert(h[k] == r[k]);
            } else if k == r.len() {
                assert(h[k] == digit_char(hi));
            } else {
                assert(h[k] == digit_char(lo));
            }
        }
    }
}

/// Renders the first `n` bytes of `bytes` as lower-case hexadecimal.
pub fn hex_prefix(bytes: &Vec<u8>, n: usize) -> (r: String)
    requires
        n <= bytes@.len(),
    ensures
        r@ == hex(bytes@.take(n as int)),
{
    let mut s = String::new();
    let mut i: usize = 0;
    while i < n
        invariant
            i <= n <= bytes@.len(),
            s@ == hex(bytes@.take(i as int)),
        decreases n - i,
    {
        let b = bytes[i];
        push_char(&mut s, digit(b / 16));
        push_char(&mut s, digit(b % 16));
        assert(bytes@.take(i + 1).drop_last() =~= bytes@.take(i as int));
        assert(s@ =~= hex(bytes@.take(i + 1)));
        i = i + 1;
    }
    s
}

/// Each occurrence of `q` in `s` doubled; every other character kept.
pub open spec fn double_char(s: Seq<char>, q: char) -> Seq<char>
    decreases s.len(),
{
    if s.len() == 0 {
        Seq::empty()
    } else {
        let rest = double_char(s.drop_last(), q);
        if s.last() == q {
            rest.push(q).push(q)
        } else {
            rest.push(s.last())
        }
    }
}

/// Appends `text` with every occurrence of `q` doubled (`str::replace(q, qq)`).
pub fn push_doubled(out: &mut String, text: &str, q: char)
    ensures
        final(out)@ == old(out)@ + double_char(text@, q),
{
    let n = text.unicode_len();
    let mut i: usize = 0;
    while i < n
        invariant
            n == text@.len(),
            i <= n,
            out@ == old(out)@ + double_char(text@.take(i as int), q),
        decreases n - i,
    {
        let c = text.get_char(i);
        assert(text@.take(i + 1).drop_last() =~= text@.take(i as int));
        if c == q {
            push_char(out, q);
            push_char(out, q);
        } else {
            push_char(out, c);
        }
        assert(out@ =~= old(out)@ + double_char(text@.take(i + 1), q));
        i = i + 1;
    }
    assert(text@.take(n as int) =~= text@);
}

/// `text` escaped for use inside a single-quoted SQL string literal.
pub open spec fn sql_string_body(text: Seq<char>) -> Seq<char> {
    double_char(text, '\'')
}

/// Every pair of `q` in `s` read back as one `q`, scanning from the end.
pub open spec fn undouble(s: Seq<char>, q: char) -> Seq<char>
    decreases s.len(),
{
    if s.len() == 0 {
        Seq::empty()
    } else if s.len() >= 2 && s.last() == q && s[s.len() - 2] == q {
        undouble(s.take(s.len() - 2), q).push(q)
    } else {
        undouble(s.drop_last(), q).push(s.last())
    }
}

/// Un-doubling gives back what doubling was given.
pub proof fn lemma_undouble_double(s: Seq<char>, q: char)
    ensures
        undouble(double_char(s, q), q) == s,
    decreases s.len(),
{
    if s.len() > 0 {
        lemma_undouble_double(s.drop_last(), q);
        let d = double_char(s, q);
        let rest = double_char(s.drop_last(), q);
        if s.last() == q {
            assert(d.take(d.len() - 2) =~= rest);
        } else {
            assert(d.drop_last() =~= rest);
        }
        assert(s.drop_last().push(s.last()) =~= s);
    }
}

/// Escapes a value for embedding inside a single-quoted SQL string literal.
pub fn sql_str(value: &str) -> (r: String)
    ensures
        r@ == sql_string_body(value@),
{
    let mut s = String::new();
    push_doubled(&mut s, value, '\'');
    assert(s@ =~= sql_string_body(value@));
    s
}

/// `name` as a double-quoted SQL identifier.
pub open spec fn quoted_ident(name: Seq<char>) -> Seq<char> {
    seq!['"'] + double_char(name, '"') + seq!['"']
}

/// A double-quoted identifier read back: the outer quotes dropped and each
/// inner pair of double quotes read as one.
pub open spec fn unquoted_ident(s: Seq<char>) -> Seq<char> {
    undouble(s.subrange(1, s.len() - 1), '"')
}

/// Quoting an identifier loses nothing: reading the quoted form back gives
/// the identifier.
pub proof fn law_quoted_ident_round_trip(name: Seq<char>)
    ensures
        unquoted_ident(quoted_ident(name)) == name,
{
    let d = double_char(name, '"');
    assert(quoted_ident(name).subrange(1, quoted_ident(name).len() - 1) =~= d);
    lemma_undouble_double(name, '"');
}

/// Quotes an identifier for safe embedding, doubling any inner double quotes.
pub fn quote_ident(name: &str) -> (r: String)
    ensures
        r@ == quoted_ident(name@),
{
    let mut s = String::new();
    push_char(&mut s, '"');
    push_doubled(&mut s, name, '"');
    push_char(&mut s, '"');
    assert(s@ =~= quoted_ident(name@));
    s
}

/// Whether two strings hold the same characters.
pub fn str_eq(a: &str, b: &str) -> (r: bool)
    ensures
        r == (a@ == b@),
{
    let n = a.unicode_len();
    if n != b.unicode_len() {
        return false;
    }
    let mut i: usize = 0;
    while i < n
        invariant
            n == a@.len() == b@.len(),
            i <= n,
            forall|k: int| 0 <= k < i ==> a@[k] == b@[k],
        decreases n - i,
    {
        if a.get_char(i) != b.get_char(i) {
            return false;
        }
        i = i + 1;
    }
    assert(a@ =~= b@);
    true
}

/// The ASCII lower-case form of a character; other characters unchanged.
pub open spec fn ascii_lower(c: char) -> char {
    if 'A' <= c <= 'Z' {
        ((c as u32) + 32) as char
    } else {
        c
    }
}

/// Equality of two texts up to ASCII case (`str::eq_ignore_ascii_case`).
pub open spec fn eq_ignore_ascii_case(a: Seq<char>, b: Seq<char>) -> bool {
    a.len() == b.len() && forall|k: int| 0 <= k < a.len() ==> ascii_lower(#[trigger] a[k]) == ascii_lower(b[k])
}

fn lower(c: char) -> (r: char)
    ensures
        r == ascii_lower(c),
{
    if 'A' <= c && c <= 'Z' {
        ((c as u8) + 32) as char
    } else {
        c
    }
}

/// Compares two strings ignoring ASCII case.
pub fn str_eq_ignore_ascii_case(a: &str, b: &str) -> (r: bool)
    ensures
        r == eq_ignore_ascii_case(a@, b@),
{
    let n = a.unicode_len();
    if n != b.unicode_len() {
        return false;
    }
    let mut i: usize = 0;
    while i < n
        invariant
            n == a@.len() == b@.len(),
            i <= n,
            forall|k: int| 0 <= k < i ==> ascii_lower(#[trigger] a@[k]) == ascii_lower(b@[k]),
        decreases n - i,
    {
        if lower(a.get_char(i)) != lower(b.get_char(i)) {
            return false;
        }
        i = i + 1;
    }
    true
}

/// The parts joined with `sep` between consecutive parts.
pub open spec fn join_with(parts: Seq<Seq<char>>, sep: Seq<char>) -> Seq<char>
    decreases parts.len(),
{
    if parts.len() == 0 {
        Seq::empty()
    } else if parts.len() == 1 {
        parts[0]
    } else {
        join_with(parts.drop_last(), sep) + sep + parts.last()
    }
}

/// The texts of a list of strings.
pub open spec fn string_texts(v: Seq<String>) -> Seq<Seq<char>> {
    Seq::new(v.len(), |i: int| v[i]@)
}

/// Joins strings with a separator (`[String]::join`).
pub fn join_strings(parts: &Vec<String>, sep: &str) -> (r: String)
    ensures
        r@ == join_with(string_texts(parts@), sep@),
{
    let n = parts.len();
    let mut s = String::new();
    let mut i: usize = 0;
    while i < n
        invariant
            n == parts@.len(),
            i <= n,
            s@ == join_with(string_texts(parts@).take(i as int), sep@),
        decreases n - i,
    {
        let ghost texts = string_texts(parts@);
        assert(texts.take(i + 1).drop_last() =~= texts.take(i as int));
        if i > 0 {
            s.append(sep);
        }
        s.append(parts[i].as_str());
        if i == 0 {
            assert(texts.take(1) =~= seq![parts@[0]@]);
            assert(s@ =~= join_with(texts.take(1), sep@));
        }
        i = i + 1;
    }
    assert(string_texts(parts@).take(n as int) =~= string_texts(parts@));
    s
}

} // verus!
