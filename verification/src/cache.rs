//! Process-wide cache of ingested database artifacts: how entries are keyed
//! and named, how leases on them are counted, and which entries are evicted
//! when the cache grows past its cap.

use crate::model::{ColumnInfo, ImportOptions};
use crate::paths::{join, joined};
use crate::text::{decimal, decimal_string, hex, hex_prefix, is_lower_hex_digit, lemma_hex_shape};
use sha2::{Digest, Sha256};
use vstd::prelude::*;
use vstd::string::*;
use vstd::utf8::encode_utf8;

verus! {

/// An ingested database ready to be attached, with the lease that keeps it
/// from being evicted while it is in use.
pub struct CacheArtifact<L> {
    pub path: String,
    pub columns: Vec<ColumnInfo>,
    pub row_count: u64,
    pub cached: bool,
    pub lease: L,
}

/// Version of the cache layout; part of every cache key.
pub const CACHE_SCHEMA_VERSION: u32 = 1;

/// The SHA-256 digest of `data`, as computed by the `sha2` crate.
pub uninterp spec fn sha256_digest(data: Seq<u8>) -> Seq<u8>;

/// `sha2::Sha256::digest`: the contract claims that the 32-byte result is a
/// function of the input bytes, named by `sha256_digest`.
#[verifier::external_body]
fn sha256(data: &[u8]) -> (r: Vec<u8>)
    ensures
        r@ == sha256_digest(data@),
        r@.len() == 32,
{
    Sha256::digest(data).to_vec()
}

/// The `n` low-order bytes of `x`, least significant first.
pub open spec fn le_bytes(x: nat, n: nat) -> Seq<u8>
    decreases n,
{
    if n == 0 {
        Seq::empty()
    } else {
        seq![(x % 256) as u8] + le_bytes(x / 256, (n - 1) as nat)
    }
}

fn push_le_bytes(out: &mut Vec<u8>, x: u128, n: usize)
    ensures
        final(out)@ == old(out)@ + le_bytes(x as nat, n as nat),
{
    let mut v = x;
    let mut i: usize = 0;
    while i < n
        invariant
            i <= n,
            old(out)@ + le_bytes(x as nat, n as nat) == out@ + le_bytes(v as nat, (n - i) as nat),
        decreases n - i,
    {
        let ghost before = out@;
        out.push((v % 256) as u8);
        assert(out@ + le_bytes((v / 256) as nat, (n - i - 1) as nat) =~= before + le_bytes(
            v as nat,
            (n - i) as nat,
        ));
        v = v / 256;
        i = i + 1;
    }
    assert(out@ + le_bytes(v as nat, 0) =~= out@);
}

fn push_all(out: &mut Vec<u8>, bytes: Vec<u8>)
    ensures
        final(out)@ == old(out)@ + bytes@,
{
    let mut bytes = bytes;
    out.append(&mut bytes);
}

/// The bytes hashed for the delimiter option: a 0 byte when the delimiter
/// is auto-detected, else a 1 byte followed by the delimiter's UTF-8 bytes.
pub open spec fn delimiter_bytes(options: ImportOptions) -> Seq<u8> {
    match options.delimiter {
        Some(d) => seq![1u8] + encode_utf8(d@),
        None => seq![0u8],
    }
}

/// What identifies a set of import options: the delimiter's text, if one
/// is set, and the header setting.
pub open spec fn options_identity(options: ImportOptions) -> (Option<Seq<char>>, Option<bool>) {
    (
        match options.delimiter {
            Some(d) => Some(d@),
            None => None,
        },
        options.header,
    )
}

/// The byte hashed for the header option: 1 for present, 0 for absent, 2 for
/// auto-detect.
pub open spec fn header_byte(options: ImportOptions) -> u8 {
    match options.header {
        Some(true) => 1,
        Some(false) => 0,
        None => 2,
    }
}

/// The bytes that identify a cache entry: the schema version, the canonical
/// source path, the source's length and modification time, and the import
/// options.
pub open spec fn cache_message(path: Seq<char>, len: u64, modified: u128, options: ImportOptions) -> Seq<u8> {
    le_bytes(CACHE_SCHEMA_VERSION as nat, 4) + encode_utf8(path) + le_bytes(len as nat, 8)
        + le_bytes(modified as nat, 16) + delimiter_bytes(options) + seq![header_byte(options)]
}

/// The cache key: the first 16 bytes of the SHA-256 digest of the message,
/// in lower-case hexadecimal.
pub open spec fn cache_key_of(path: Seq<char>, len: u64, modified: u128, options: ImportOptions) -> Seq<char> {
    hex(sha256_digest(cache_message(path, len, modified, options)).take(16))
}

/// The key of the cache entry for a source with this canonical path, length
/// in bytes and modification time (nanoseconds since the Unix epoch), imported
/// with `options`.
pub fn cache_key(canonical_path: &str, len: u64, modified: u128, options: &ImportOptions) -> (r: String)
    ensures
        r@ == cache_key_of(canonical_path@, len, modified, *options),
        r@.len() == 32,
        forall|k: int| 0 <= k < r@.len() ==> is_lower_hex_digit(#[trigger] r@[k]),
{
    let mut message: Vec<u8> = Vec::new();
    push_le_bytes(&mut message, CACHE_SCHEMA_VERSION as u128, 4);
    push_all(&mut message, canonical_path.as_bytes_vec());
    push_le_bytes(&mut message, len as u128, 8);
    push_le_bytes(&mut message, modified, 16);
    match &options.delimiter {
        Some(d) => {
            message.push(1);
            push_all(&mut message, d.as_str().as_bytes_vec());
        },
        None => {
            message.push(0);
        },
    }
    let header: u8 = match options.header {
        Some(true) => 1,
        Some(false) => 0,
        None => 2,
    };
    message.push(header);
    assert(message@ =~= cache_message(canonical_path@, len, modified, *options));
    let digest = sha256(message.as_slice());
    proof {
        lemma_hex_shape(digest@.take(16));
    }
    hex_prefix(&digest, 16)
}

/// The file name of the database for a cache key.
pub open spec fn database_file_name(key: Seq<char>) -> Seq<char> {
    key + ".duckdb"@
}

/// The file name of the access stamp of the database for a cache key.
pub open spec fn access_file_name_of(key: Seq<char>) -> Seq<char> {
    key + ".access"@
}

/// The file name of a temporary database being ingested for a cache key.
pub open spec fn temp_file_name(key: Seq<char>, process: u32, temp_id: u64) -> Seq<char> {
    seq!['.'] + key + seq!['.'] + decimal(process as nat) + seq!['.'] + decimal(temp_id as nat)
        + ".tmp.duckdb"@
}

/// A directory entry that is a published cache database: its name has the
/// `duckdb` extension and is not hidden.
pub open spec fn is_cache_database_name(name: Seq<char>) -> bool {
    &&& name.len() > 7
    &&& name[0] != '.'
    &&& name.subrange(name.len() - 7, name.len() as int) == ".duckdb"@
}

/// The access-stamp file name that belongs to a cache database file name
/// (`Path::with_extension("access")`).
pub open spec fn access_name_for(name: Seq<char>) -> Seq<char> {
    name.subrange(0, name.len() - 7) + ".access"@
}

/// The path of the database for `key` under the cache root.
pub fn database_path(root: &str, key: &str) -> (r: String)
    ensures
        r@ == joined(root@, database_file_name(key@)),
{
    let name = String::from_str(key).concat(".duckdb");
    join(root, name.as_str())
}

/// The path of the access stamp for `key` under the cache root.
pub fn access_path(root: &str, key: &str) -> (r: String)
    ensures
        r@ == joined(root@, access_file_name_of(key@)),
{
    let name = String::from_str(key).concat(".access");
    join(root, name.as_str())
}

/// The path of a temporary database for `key`, unique per process and
/// per temporary id.
pub fn temp_path(root: &str, key: &str, process: u32, temp_id: u64) -> (r: String)
    ensures
        r@ == joined(root@, temp_file_name(key@, process, temp_id)),
{
    let name = String::from_str(".").concat(key).concat(".").concat(
        decimal_string(process as u128).as_str(),
    ).concat(".").concat(decimal_string(temp_id as u128).as_str()).concat(".tmp.duckdb");
    proof {
        reveal_strlit(".");
    }
    assert(name@ =~= temp_file_name(key@, process, temp_id));
    join(root, name.as_str())
}

/// Whether a directory entry's name is that of a published cache database.
pub fn cache_database_name(name: &str) -> (r: bool)
    ensures
        r == is_cache_database_name(name@),
{
    let n = name.unicode_len();
    if n <= 7 || name.get_char(0) == '.' {
        return false;
    }
    let tail = name.substring_char(n - 7, n);
    proof {
        reveal_strlit(".duckdb");
    }
    crate::text::str_eq(tail, ".duckdb")
}

/// The access-stamp file name that belongs to a cache database file name.
pub fn access_name(name: &str) -> (r: String)
    requires
        is_cache_database_name(name@),
    ensures
        r@ == access_name_for(name@),
{
    let n = name.unicode_len();
    String::from_str(name.substring_char(0, n - 7)).concat(".access")
}

/// The value of a text of decimal digits.
pub open spec fn digits_value(s: Seq<char>) -> nat
    decreases s.len(),
{
    if s.len() == 0 {
        0
    } else {
        digits_value(s.drop_last()) * 10 + ((s.last() as u32) - 48) as nat
    }
}

/// A text made only of ASCII digits.
pub open spec fn all_digits(s: Seq<char>) -> bool {
    forall|k: int| 0 <= k < s.len() ==> '0' <= #[trigger] s[k] <= '9'
}

/// The digits of an unsigned number: the text without one leading `+`.
pub open spec fn unsigned_body(s: Seq<char>) -> Seq<char> {
    if s.len() > 0 && s[0] == '+' {
        s.drop_first()
    } else {
        s
    }
}

/// What parsing an unsigned 128-bit integer accepts: an optional `+`
/// followed by at least one digit, with a value that fits.
pub open spec fn parsed_u128(s: Seq<char>) -> Option<u128> {
    let body = unsigned_body(s);
    if body.len() > 0 && all_digits(body) && digits_value(body) <= u128::MAX {
        Some(digits_value(body) as u128)
    } else {
        None
    }
}

/// The access time recorded in a stamp file's text, or 0 when it is not a
/// valid number.
pub open spec fn access_stamp_value(text: Seq<char>) -> u128 {
    match parsed_u128(text) {
        Some(v) => v,
        None => 0,
    }
}

proof fn lemma_digits_value_grows(s: Seq<char>, c: char)
    requires
        '0' <= c <= '9',
    ensures
        digits_value(s.push(c)) == digits_value(s) * 10 + ((c as u32) - 48) as nat,
        digits_value(s.push(c)) >= digits_value(s),
{
    assert(s.push(c).drop_last() =~= s);
}

/// Reads an access stamp: the decimal time it holds, or 0 when the text is
/// not a valid unsigned 128-bit number.
pub fn parse_access_stamp(text: &str) -> (r: u128)
    ensures
        r == access_stamp_value(text@),
{
    let n = text.unicode_len();
    let mut start: usize = 0;
    if n > 0 && text.get_char(0) == '+' {
        start = 1;
    }
    let ghost body = unsigned_body(text@);
    assert(body =~= text@.subrange(start as int, n as int));
    if start == n {
        return 0;
    }
    let mut value: u128 = 0;
    let mut i: usize = start;
    while i < n
        invariant
            n == text@.len(),
            start <= i <= n,
            body == text@.subrange(start as int, n as int),
            body == unsigned_body(text@),
            all_digits(text@.subrange(start as int, i as int)),
            value as nat == digits_value(text@.subrange(start as int, i as int)),
        decreases n - i,
    {
        let c = text.get_char(i);
        let ghost prefix = text@.subrange(start as int, i as int);
        assert(text@.subrange(start as int, i + 1) =~= prefix.push(c));
        if c < '0' || c > '9' {
            assert(body[i - start] == c);
            return 0;
        }
        proof {
            lemma_digits_value_grows(prefix, c);
        }
        let d = ((c as u32) - 48) as u128;
        match value.checked_mul(10) {
            Some(v) => match v.checked_add(d) {
                Some(w) => {
                    value = w;
                },
                None => {
                    proof {
                        lemma_digits_value_monotone(text@.subrange(start as int, n as int), (i + 1 - start) as int);
                    }
                    assert(text@.subrange(start as int, n as int).subrange(0, (i + 1 - start) as int) =~= prefix.push(c));
                    return 0;
                },
            },
            None => {
                proof {
                    lemma_digits_value_monotone(text@.subrange(start as int, n as int), (i + 1 - start) as int);
                }
                assert(text@.subrange(start as int, n as int).subrange(0, (i + 1 - start) as int) =~= prefix.push(c));
                return 0;
            },
        }
        i = i + 1;
    }
    value
}

proof fn lemma_digits_value_monotone(s: Seq<char>, k: int)
    requires
        0 <= k <= s.len(),
    ensures
        all_digits(s) ==> digits_value(s.subrange(0, k)) <= digits_value(s),
    decreases s.len() - k,
{
    if k < s.len() && all_digits(s) {
        lemma_digits_value_monotone(s, k + 1);
        assert(s.subrange(0, k + 1) =~= s.subrange(0, k).push(s[k]));
        lemma_digits_value_grows(s.subrange(0, k), s[k]);
    } else if k == s.len() {
        assert(s.subrange(0, k) =~= s);
    }
}

/// The text written into an access stamp for time `now`.
pub fn access_stamp_text(now: u128) -> (r: String)
    ensures
        r@ == decimal(now as nat),
{
    decimal_string(now)
}

/// How many live leases one database path has.
pub struct LeaseEntry {
    path: String,
    count: u64,
}

spec fn lease_keys_unique(es: Seq<LeaseEntry>) -> bool {
    forall|i: int, j: int| 0 <= i < es.len() && 0 <= j < es.len() && i != j ==> es[i].path@ != es[j].path@
}

spec fn lease_has(es: Seq<LeaseEntry>, k: Seq<char>) -> bool {
    exists|i: int| 0 <= i < es.len() && (#[trigger] es[i]).path@ == k
}

spec fn lease_map(es: Seq<LeaseEntry>) -> Map<Seq<char>, u64> {
    Map::new(
        |k: Seq<char>| lease_has(es, k),
        |k: Seq<char>| es[choose|i: int| 0 <= i < es.len() && (#[trigger] es[i]).path@ == k].count,
    )
}

proof fn lemma_lease_at(es: Seq<LeaseEntry>, i: int)
    requires
        lease_keys_unique(es),
        0 <= i < es.len(),
    ensures
        lease_map(es).contains_key(es[i].path@),
        lease_map(es)[es[i].path@] == es[i].count,
{
    let k = es[i].path@;
    assert(lease_has(es, k));
    let j = choose|j: int| 0 <= j < es.len() && (#[trigger] es[j]).path@ == k;
    assert(j == i);
}

proof fn lemma_lease_remove(es: Seq<LeaseEntry>, i: int)
    requires
        lease_keys_unique(es),
        0 <= i < es.len(),
    ensures
        lease_keys_unique(es.remove(i)),
        lease_map(es.remove(i)) == lease_map(es).remove(es[i].path@),
{
    let r = es.remove(i);
    let k = es[i].path@;
    assert forall|a: int, b: int| 0 <= a < r.len() && 0 <= b < r.len() && a != b implies r[a].path@ != r[b].path@ by {
        let a2 = if a < i { a } else { a + 1 };
        let b2 = if b < i { b } else { b + 1 };
        assert(r[a] == es[a2] && r[b] == es[b2]);
    }
    let m = lease_map(es).remove(k);
    assert forall|k2: Seq<char>| #[trigger] lease_map(r).contains_key(k2) <==> m.contains_key(k2) by {
        if lease_map(r).contains_key(k2) {
            let a = choose|a: int| 0 <= a < r.len() && (#[trigger] r[a]).path@ == k2;
            let a2 = if a < i { a } else { a + 1 };
            assert(r[a] == es[a2]);
            lemma_lease_at(es, a2);
        }
        if m.contains_key(k2) {
            let a2 = choose|a: int| 0 <= a < es.len() && (#[trigger] es[a]).path@ == k2;
            assert(a2 != i);
            let a = if a2 < i { a2 } else { a2 - 1 };
            assert(r[a] == es[a2]);
        }
    }
    assert forall|k2: Seq<char>| #[trigger] lease_map(r).contains_key(k2) implies lease_map(r)[k2] == m[k2] by {
        let a = choose|a: int| 0 <= a < r.len() && (#[trigger] r[a]).path@ == k2;
        let a2 = if a < i { a } else { a + 1 };
        assert(r[a] == es[a2]);
        lemma_lease_at(r, a);
        lemma_lease_at(es, a2);
    }
    assert(lease_map(r) =~= m);
}

proof fn lemma_lease_push(es: Seq<LeaseEntry>, e: LeaseEntry)
    requires
        lease_keys_unique(es),
        !lease_has(es, e.path@),
    ensures
        lease_keys_unique(es.push(e)),
        lease_map(es.push(e)) == lease_map(es).insert(e.path@, e.count),
{
    let p = es.push(e);
    assert forall|a: int, b: int| 0 <= a < p.len() && 0 <= b < p.len() && a != b implies p[a].path@ != p[b].path@ by {
        if a < es.len() && b < es.len() {
            assert(p[a] == es[a] && p[b] == es[b]);
        } else if a < es.len() {
            assert(p[a] == es[a]);
        } else {
            assert(p[b] == es[b]);
        }
    }
    let m = lease_map(es).insert(e.path@, e.count);
    assert forall|k2: Seq<char>| #[trigger] lease_map(p).contains_key(k2) <==> m.contains_key(k2) by {
        if lease_map(p).contains_key(k2) {
            let a = choose|a: int| 0 <= a < p.len() && (#[trigger] p[a]).path@ == k2;
            if a < es.len() {
                assert(p[a] == es[a]);
            }
        }
        if m.contains_key(k2) && k2 != e.path@ {
            let a = choose|a: int| 0 <= a < es.len() && (#[trigger] es[a]).path@ == k2;
            assert(p[a] == es[a]);
        }
        if k2 == e.path@ {
            assert(p[es.len() as int] == e);
        }
    }
    assert forall|k2: Seq<char>| #[trigger] lease_map(p).contains_key(k2) implies lease_map(p)[k2] == m[k2] by {
        let a = choose|a: int| 0 <= a < p.len() && (#[trigger] p[a]).path@ == k2;
        lemma_lease_at(p, a);
        if a < es.len() {
            assert(p[a] == es[a]);
            lemma_lease_at(es, a);
        }
    }
    assert(lease_map(p) =~= m);
}

fn find_lease(entries: &Vec<LeaseEntry>, path: &str) -> (r: Option<usize>)
    ensures
        r is None <==> !lease_has(entries@, path@),
        r matches Some(i) ==> i < entries@.len() && entries@[i as int].path@ == path@,
{
    let n = entries.len();
    let mut i: usize = 0;
    while i < n
        invariant
            n == entries@.len(),
            i <= n,
            forall|k: int| 0 <= k < i ==> (#[trigger] entries@[k]).path@ != path@,
        decreases n - i,
    {
        if crate::text::str_eq(entries[i].path.as_str(), path) {
            return Some(i);
        }
        i = i + 1;
    }
    None
}

/// The live lease count of every leased database path. A path with no
/// live lease has no entry.
pub struct LeaseTable {
    entries: Vec<LeaseEntry>,
}

impl View for LeaseTable {
    type V = Map<Seq<char>, u64>;

    closed spec fn view(&self) -> Map<Seq<char>, u64> {
        lease_map(self.entries@)
    }
}

/// Every path recorded in a lease table has a positive count: a path whose
/// last lease ended has no entry.
pub open spec fn counts_positive(leases: Map<Seq<char>, u64>) -> bool {
    forall|k: Seq<char>| #[trigger] leases.contains_key(k) ==> leases[k] > 0
}

proof fn lemma_counts_positive(es: Seq<LeaseEntry>)
    requires
        lease_keys_unique(es),
        forall|i: int| 0 <= i < es.len() ==> (#[trigger] es[i]).count > 0,
    ensures
        counts_positive(lease_map(es)),
{
    assert forall|k: Seq<char>| #[trigger] lease_map(es).contains_key(k) implies lease_map(es)[k] > 0 by {
        let i = choose|i: int| 0 <= i < es.len() && (#[trigger] es[i]).path@ == k;
        lemma_lease_at(es, i);
    }
}

/// The live lease count of `path` in a table.
pub open spec fn lease_count(leases: Map<Seq<char>, u64>, path: Seq<char>) -> u64 {
    if leases.contains_key(path) {
        leases[path]
    } else {
        0
    }
}

/// The table after one more lease on `path`.
pub open spec fn leased_once_more(leases: Map<Seq<char>, u64>, path: Seq<char>) -> Map<Seq<char>, u64> {
    leases.insert(path, (lease_count(leases, path) + 1) as u64)
}

/// The table after one lease on `path` ends: the count drops by one and the
/// entry disappears at zero; a path without leases is left alone.
pub open spec fn leased_once_less(leases: Map<Seq<char>, u64>, path: Seq<char>) -> Map<Seq<char>, u64> {
    if !leases.contains_key(path) {
        leases
    } else if leases[path] <= 1 {
        leases.remove(path)
    } else {
        leases.insert(path, (leases[path] - 1) as u64)
    }
}

impl LeaseTable {
    #[verifier::type_invariant]
    spec fn inv(self) -> bool {
        &&& lease_keys_unique(self.entries@)
        &&& forall|i: int| 0 <= i < self.entries@.len() ==> (#[trigger] self.entries@[i]).count > 0
    }

    /// A table without leases.
    pub fn new() -> (r: Self)
        ensures
            r@ == Map::<Seq<char>, u64>::empty(),
    {
        let r = LeaseTable { entries: Vec::new() };
        assert(lease_map(r.entries@) =~= Map::<Seq<char>, u64>::empty());
        r
    }

    /// Every recorded count is positive.
    pub fn count(&self, path: &str) -> (r: u64)
        ensures
            r == lease_count(self@, path@),
            self@.contains_key(path@) ==> r > 0,
            counts_positive(self@),
    {
        proof {
            use_type_invariant(self);
            lemma_counts_positive(self.entries@);
        }
        match find_lease(&self.entries, path) {
            Some(i) => {
                proof {
                    lemma_lease_at(self.entries@, i as int);
                }
                self.entries[i].count
            },
            None => 0,
        }
    }

    /// Records one more lease on `path`.
    pub fn acquire(&mut self, path: &str)
        requires
            lease_count(old(self)@, path@) < u64::MAX,
        ensures
            final(self)@ == leased_once_more(old(self)@, path@),
            counts_positive(final(self)@),
    {
        proof {
            use_type_invariant(&*self);
        }
        let mut taken = LeaseTable { entries: Vec::new() };
        std::mem::swap(self, &mut taken);
        proof {
            use_type_invariant(&taken);
        }
        let LeaseTable { mut entries } = taken;
        let ghost initial = entries@;
        let count = match find_lease(&entries, path) {
            Some(i) => {
                proof {
                    lemma_lease_at(entries@, i as int);
                    lemma_lease_remove(entries@, i as int);
                }
                let e = entries.remove(i);
                e.count
            },
            None => {
                assert(!lease_map(entries@).contains_key(path@));
                0
            },
        };
        let entry = LeaseEntry { path: String::from_str(path), count: count + 1 };
        assert(!lease_has(entries@, path@)) by {
            if lease_has(entries@, path@) {
                assert(lease_map(entries@).contains_key(path@));
            }
        }
        proof {
            lemma_lease_push(entries@, entry);
        }
        entries.push(entry);
        assert(lease_map(entries@) =~= leased_once_more(lease_map(initial), path@));
        *self = LeaseTable { entries };
        proof {
            use_type_invariant(&*self);
            lemma_counts_positive(self.entries@);
        }
    }

    /// Records the end of one lease on `path`.
    pub fn release(&mut self, path: &str)
        ensures
            final(self)@ == leased_once_less(old(self)@, path@),
            counts_positive(final(self)@),
    {
        proof {
            use_type_invariant(&*self);
        }
        let mut taken = LeaseTable { entries: Vec::new() };
        std::mem::swap(self, &mut taken);
        proof {
            use_type_invariant(&taken);
        }
        let LeaseTable { mut entries } = taken;
        let ghost initial = entries@;
        match find_lease(&entries, path) {
            Some(i) => {
                proof {
                    lemma_lease_at(entries@, i as int);
                    lemma_lease_remove(entries@, i as int);
                }
                let e = entries.remove(i);
                if e.count > 1 {
                    let entry = LeaseEntry { path: e.path, count: e.count - 1 };
                    assert(!lease_has(entries@, path@)) by {
                        if lease_has(entries@, path@) {
                            assert(lease_map(entries@).contains_key(path@));
                        }
                    }
                    proof {
                        lemma_lease_push(entries@, entry);
                    }
                    entries.push(entry);
                }
                assert(lease_map(entries@) =~= leased_once_less(lease_map(initial), path@));
            },
            None => {},
        }
        *self = LeaseTable { entries };
        proof {
            use_type_invariant(&*self);
            lemma_counts_positive(self.entries@);
        }
    }
}

/// Acquiring a lease and then releasing it leaves the lease table exactly as
/// it was.
pub proof fn law_lease_round_trip(leases: Map<Seq<char>, u64>, path: Seq<char>)
    requires
        lease_count(leases, path) < u64::MAX,
        counts_positive(leases),
    ensures
        leased_once_less(leased_once_more(leases, path), path) == leases,
{
    let after = leased_once_less(leased_once_more(leases, path), path);
    if leases.contains_key(path) {
        assert(after =~= leases);
    } else {
        assert(after =~= leases);
    }
}

/// One published database found in the cache directory.
pub struct CacheEntry {
    pub path: String,
    /// Size in bytes.
    pub size: u64,
    /// Last recorded access, in nanoseconds since the Unix epoch.
    pub accessed: u128,
}

/// Entry `a` was accessed before entry `b`, ties broken by listing order.
pub open spec fn accessed_before(accessed: Seq<u128>, a: int, b: int) -> bool {
    accessed[a] < accessed[b] || (accessed[a] == accessed[b] && a < b)
}

/// `order` lists every entry index exactly once, least recently accessed
/// first (a stable sort by access time).
pub open spec fn is_access_order(accessed: Seq<u128>, order: Seq<usize>) -> bool {
    &&& order.len() == accessed.len()
    &&& forall|p: int| 0 <= p < order.len() ==> (#[trigger] order[p]) < accessed.len()
    &&& forall|p: int, q: int|
        0 <= p < q < order.len() ==> accessed_before(accessed, order[p] as int, order[q] as int)
}

/// The access times of a list of entries.
pub open spec fn access_times(entries: Seq<CacheEntry>) -> Seq<u128> {
    Seq::new(entries.len(), |i: int| entries[i].accessed)
}

/// The sizes of a list of entries.
pub open spec fn entry_sizes(entries: Seq<CacheEntry>) -> Seq<u64> {
    Seq::new(entries.len(), |i: int| entries[i].size)
}

/// The sum of a list of sizes.
pub open spec fn total_size(sizes: Seq<u64>) -> nat
    decreases sizes.len(),
{
    if sizes.len() == 0 {
        0
    } else {
        total_size(sizes.drop_last()) + sizes.last() as nat
    }
}

/// Indices of `entries` in access order.
fn access_order(entries: &Vec<CacheEntry>) -> (order: Vec<usize>)
    ensures
        is_access_order(access_times(entries@), order@),
{
    let n = entries.len();
    let ghost acc = access_times(entries@);
    let mut order: Vec<usize> = Vec::new();
    let mut i: usize = 0;
    while i < n
        invariant
            n == entries@.len(),
            acc == access_times(entries@),
            i <= n,
            order@.len() == i,
            forall|p: int| 0 <= p < order@.len() ==> (#[trigger] order@[p]) < i,
            forall|p: int, q: int|
                0 <= p < q < order@.len() ==> accessed_before(acc, order@[p] as int, order@[q] as int),
        decreases n - i,
    {
        let a = entries[i].accessed;
        let mut p: usize = 0;
        while p < order.len() && entries[order[p]].accessed <= a
            invariant
                n == entries@.len(),
                acc == access_times(entries@),
                i < n,
                p <= order@.len(),
                order@.len() == i,
                a == acc[i as int],
                forall|k: int| 0 <= k < order@.len() ==> (#[trigger] order@[k]) < i,
                forall|k: int| 0 <= k < p ==> acc[order@[k] as int] <= a,
            decreases order@.len() - p,
        {
            p = p + 1;
        }
        let ghost before = order@;
        order.insert(p, i);
        assert forall|x: int, y: int| 0 <= x < y < order@.len() implies accessed_before(acc, order@[x] as int, order@[y] as int) by {
            if y < p {
                assert(order@[x] == before[x] && order@[y] == before[y]);
            } else if y == p {
                assert(order@[x] == before[x]);
            } else if x < p {
                assert(order@[x] == before[x] && order@[y] == before[y - 1]);
                assert(accessed_before(acc, before[p as int] as int, before[y - 1] as int) || y - 1 == p);
            } else if x == p {
                assert(order@[y] == before[y - 1]);
                assert(accessed_before(acc, before[p as int] as int, before[y - 1] as int) || y - 1 == p);
            } else {
                assert(order@[x] == before[x - 1] && order@[y] == before[y - 1]);
            }
        }
        i = i + 1;
    }
    order
}

/// The state of one eviction pass.
pub struct EvictionView {
    /// Entry indices, least recently accessed first.
    pub order: Seq<usize>,
    /// Whether each entry was leased when the pass started.
    pub leased: Seq<bool>,
    /// Size of each entry.
    pub sizes: Seq<u64>,
    /// How many positions of `order` were considered so far.
    pub pos: nat,
    /// The cache's size as the pass has accounted for it.
    pub total: u64,
    pub max_bytes: u64,
}

/// One pass of least-recently-used eviction over a directory listing: it
/// proposes unleased entries, oldest access first, until the cache fits its
/// cap; the caller removes each proposed file and reports the removals that
/// succeeded.
pub struct Eviction {
    order: Vec<usize>,
    leased: Vec<bool>,
    sizes: Vec<u64>,
    pos: usize,
    total: u64,
    max_bytes: u64,
}

impl View for Eviction {
    type V = EvictionView;

    closed spec fn view(&self) -> EvictionView {
        EvictionView {
            order: self.order@,
            leased: self.leased@,
            sizes: self.sizes@,
            pos: self.pos as nat,
            total: self.total,
            max_bytes: self.max_bytes,
        }
    }
}

/// The positions from `from` up to `to` (exclusive) all hold leased entries.
pub open spec fn all_leased(v: EvictionView, from: int, to: int) -> bool {
    forall|q: int| from <= q < to ==> v.leased[#[trigger] v.order[q] as int]
}

impl Eviction {
    #[verifier::type_invariant]
    spec fn inv(self) -> bool {
        &&& self.pos <= self.order@.len()
        &&& self.leased@.len() == self.order@.len()
        &&& self.sizes@.len() == self.order@.len()
        &&& forall|p: int| 0 <= p < self.order@.len() ==> (#[trigger] self.order@[p]) < self.order@.len()
    }

    /// The next entry to remove, or `None` when the cache fits its cap or no
    /// unleased entry is left.
    pub fn next_victim(&mut self) -> (r: Option<usize>)
        ensures
            final(self)@.order == old(self)@.order,
            final(self)@.leased == old(self)@.leased,
            final(self)@.sizes == old(self)@.sizes,
            final(self)@.total == old(self)@.total,
            final(self)@.max_bytes == old(self)@.max_bytes,
            old(self)@.total <= old(self)@.max_bytes ==> r is None && final(self)@.pos == old(self)@.pos,
            old(self)@.total > old(self)@.max_bytes ==> match r {
                Some(i) => {
                    &&& old(self)@.pos < final(self)@.pos <= old(self)@.order.len()
                    &&& i == old(self)@.order[final(self)@.pos - 1]
                    &&& !old(self)@.leased[i as int]
                    &&& all_leased(old(self)@, old(self)@.pos as int, final(self)@.pos - 1)
                },
                None => {
                    &&& final(self)@.pos == old(self)@.order.len()
                    &&& all_leased(old(self)@, old(self)@.pos as int, old(self)@.order.len() as int)
                },
            },
    {
        proof {
            use_type_invariant(&*self);
        }
        if self.total <= self.max_bytes {
            return None;
        }
        let n = self.order.len();
        let mut p = self.pos;
        while p < n && self.leased[self.order[p]]
            invariant
                n == self.order@.len(),
                self.leased@.len() == n,
                forall|k: int| 0 <= k < n ==> (#[trigger] self.order@[k]) < n,
                self.pos <= p <= n,
                all_leased(self@, self.pos as int, p as int),
            decreases n - p,
        {
            p = p + 1;
        }
        if p == n {
            self.pos = n;
            return None;
        }
        let victim = self.order[p];
        self.pos = p + 1;
        Some(victim)
    }

    /// Records that the entry at `index` was removed from disk.
    pub fn record_removed(&mut self, index: usize)
        requires
            index < old(self)@.sizes.len(),
        ensures
            final(self)@ == (EvictionView {
                total: if old(self)@.total >= old(self)@.sizes[index as int] {
                    (old(self)@.total - old(self)@.sizes[index as int]) as u64
                } else {
                    0
                },
                ..old(self)@
            }),
    {
        proof {
            use_type_invariant(&*self);
        }
        self.total = self.total.saturating_sub(self.sizes[index]);
    }
}

/// The cache's in-memory state: where it lives, its cap, the live leases and
/// the counter for temporary file names.
pub struct CacheStore {
    root: String,
    max_bytes: u64,
    leases: LeaseTable,
    next_temp_id: u64,
}

/// What a cache store holds.
pub struct CacheStoreView {
    pub root: Seq<char>,
    pub max_bytes: u64,
    pub leases: Map<Seq<char>, u64>,
    pub next_temp_id: u64,
}

impl View for CacheStore {
    type V = CacheStoreView;

    closed spec fn view(&self) -> CacheStoreView {
        CacheStoreView {
            root: self.root@,
            max_bytes: self.max_bytes,
            leases: self.leases@,
            next_temp_id: self.next_temp_id,
        }
    }
}

/// A lease on one cache database; the store counts it until it is released.
pub struct CacheLease {
    path: String,
}

impl View for CacheLease {
    type V = Seq<char>;

    closed spec fn view(&self) -> Seq<char> {
        self.path@
    }
}

impl CacheLease {
    /// The database path this lease holds.
    pub fn path(&self) -> (r: &str)
        ensures
            r@ == self@,
    {
        self.path.as_str()
    }
}

impl CacheStore {
    /// A cache rooted at `root` that evicts once it holds more than
    /// `max_bytes`.
    pub fn at(root: String, max_bytes: u64) -> (r: Self)
        ensures
            r@.root == root@,
            r@.max_bytes == max_bytes,
            r@.leases == Map::<Seq<char>, u64>::empty(),
            r@.next_temp_id == 0,
    {
        CacheStore { root, max_bytes, leases: LeaseTable::new(), next_temp_id: 0 }
    }

    /// The cache directory.
    pub fn root(&self) -> (r: &str)
        ensures
            r@ == self@.root,
    {
        self.root.as_str()
    }

    /// The cap in bytes.
    pub fn max_bytes(&self) -> (r: u64)
        ensures
            r == self@.max_bytes,
    {
        self.max_bytes
    }

    /// The path of the published database for `key`.
    pub fn target_path(&self, key: &str) -> (r: String)
        ensures
            r@ == joined(self@.root, database_file_name(key@)),
    {
        database_path(self.root.as_str(), key)
    }

    /// A fresh temporary database path for `key`; the counter advances
    /// (wrapping) so that no two calls in one process give the same path.
    pub fn next_temp_path(&mut self, key: &str, process: u32) -> (r: String)
        ensures
            r@ == joined(old(self)@.root, temp_file_name(key@, process, old(self)@.next_temp_id)),
            final(self)@ == (CacheStoreView {
                next_temp_id: if old(self)@.next_temp_id == u64::MAX {
                    0
                } else {
                    (old(self)@.next_temp_id + 1) as u64
                },
                ..old(self)@
            }),
    {
        let id = self.next_temp_id;
        self.next_temp_id = if id == u64::MAX { 0 } else { id + 1 };
        temp_path(self.root.as_str(), key, process, id)
    }

    /// The number of live leases on `path`.
    pub fn lease_count(&self, path: &str) -> (r: u64)
        ensures
            r == lease_count(self@.leases, path@),
            counts_positive(self@.leases),
    {
        self.leases.count(path)
    }

    /// Takes a lease on the database at `path`.
    pub fn lease(&mut self, path: &str) -> (r: CacheLease)
        requires
            lease_count(old(self)@.leases, path@) < u64::MAX,
        ensures
            r@ == path@,
            final(self)@ == (CacheStoreView {
                leases: leased_once_more(old(self)@.leases, path@),
                ..old(self)@
            }),
            counts_positive(final(self)@.leases),
    {
        self.leases.acquire(path);
        CacheLease { path: String::from_str(path) }
    }

    /// Another lease on the same database as `lease`.
    pub fn clone_lease(&mut self, lease: &CacheLease) -> (r: CacheLease)
        requires
            lease_count(old(self)@.leases, lease@) < u64::MAX,
        ensures
            r@ == lease@,
            final(self)@ == (CacheStoreView {
                leases: leased_once_more(old(self)@.leases, lease@),
                ..old(self)@
            }),
            counts_positive(final(self)@.leases),
    {
        self.lease(lease.path.as_str())
    }

    /// Ends a lease.
    pub fn release(&mut self, lease: CacheLease)
        ensures
            final(self)@ == (CacheStoreView {
                leases: leased_once_less(old(self)@.leases, lease@),
                ..old(self)@
            }),
            counts_positive(final(self)@.leases),
    {
        self.leases.release(lease.path.as_str());
    }

    /// Starts an eviction pass over the listed cache databases, with the
    /// leases as they are now; `None` when their sizes add up past `u64`.
    pub fn start_eviction(&self, entries: &Vec<CacheEntry>) -> (r: Option<Eviction>)
        ensures
            r is None <==> total_size(entry_sizes(entries@)) > u64::MAX,
            r matches Some(ev) ==> {
                &&& is_access_order(access_times(entries@), ev@.order)
                &&& ev@.leased.len() == entries@.len()
                &&& forall|i: int| 0 <= i < entries@.len() ==> #[trigger] ev@.leased[i] == (lease_count(self@.leases, entries@[i].path@) > 0)
                &&& ev@.sizes == entry_sizes(entries@)
                &&& ev@.pos == 0
                &&& ev@.total == total_size(entry_sizes(entries@))
                &&& ev@.max_bytes == self@.max_bytes
            },
    {
        let n = entries.len();
        let mut leased: Vec<bool> = Vec::new();
        let mut sizes: Vec<u64> = Vec::new();
        let mut total: u64 = 0;
        let mut overflow = false;
        let mut i: usize = 0;
        while i < n
            invariant
                n == entries@.len(),
                i <= n,
                leased@.len() == i,
                sizes@ =~= entry_sizes(entries@).take(i as int),
                forall|k: int| 0 <= k < i ==> #[trigger] leased@[k] == (lease_count(self@.leases, entries@[k].path@) > 0),
                !overflow ==> total == total_size(sizes@),
                overflow ==> total_size(sizes@) > u64::MAX,
            decreases n - i,
        {
            let size = entries[i].size;
            leased.push(self.leases.count(entries[i].path.as_str()) > 0);
            let ghost before = sizes@;
            sizes.push(size);
            assert(sizes@.drop_last() =~= before);
            if !overflow {
                match total.checked_add(size) {
                    Some(t) => {
                        total = t;
                    },
                    None => {
                        overflow = true;
                    },
                }
            }
            i = i + 1;
        }
        assert(sizes@ =~= entry_sizes(entries@));
        if overflow {
            return None;
        }
        let order = access_order(entries);
        Some(Eviction { order, leased, sizes, pos: 0, total, max_bytes: self.max_bytes })
    }
}

/// Whether materializing serves the existing artifact, which is then
/// reported as cached: only when a valid artifact exists and no refresh was
/// forced. Otherwise the source is ingested again and the new artifact is
/// reported as not cached.
pub fn artifact_cached(valid_existing: bool, force: bool) -> (r: bool)
    ensures
        r == (valid_existing && !force),
{
    valid_existing && !force
}

proof fn lemma_decimal_digits(n: nat)
    ensures
        all_digits(decimal(n)),
        digits_value(decimal(n)) == n,
        decimal(n).len() > 0,
    decreases n,
{
    crate::text::lemma_decimal_len(n);
    let d0 = (n % 10) as nat;
    assert(((48 + d0) as char) as u32 == 48 + d0);
    assert(decimal(n).last() == crate::text::digit_char(d0));
    if n < 10 {
        assert(decimal(n).drop_last() =~= Seq::<char>::empty());
        assert(digits_value(decimal(n)) == digits_value(decimal(n).drop_last()) * 10 + ((decimal(n).last() as u32) - 48) as nat);
    }
    if n >= 10 {
        lemma_decimal_digits(n / 10);
        let d = crate::text::digit_char(n % 10);
        assert(decimal(n) == decimal(n / 10).push(d));
        assert(decimal(n).drop_last() =~= decimal(n / 10));
        assert(digits_value(decimal(n)) == digits_value(decimal(n / 10)) * 10 + d0);
        assert((n / 10) * 10 + n % 10 == n);
        assert forall|k: int| 0 <= k < decimal(n).len() implies '0' <= #[trigger] decimal(n)[k] <= '9' by {
            if k < decimal(n).len() - 1 {
                assert(decimal(n)[k] == decimal(n / 10)[k]);
            }
        }
    }
}

/// An access stamp reads back as the time that was written into it.
pub proof fn law_access_stamp_round_trip(now: u128)
    ensures
        access_stamp_value(decimal(now as nat)) == now,
{
    lemma_decimal_digits(now as nat);
    assert(decimal(now as nat)[0] != '+');
}

/// Import options are part of a cache entry's identity: for the same source
/// fingerprint, two option sets that give the same hashed message are the
/// same options (the same delimiter, or both auto-detected, and the same
/// header setting). Any change of the options changes the message.
pub proof fn law_options_in_cache_message(
    path: Seq<char>,
    len: u64,
    modified: u128,
    a: ImportOptions,
    b: ImportOptions,
)
    requires
        cache_message(path, len, modified, a) == cache_message(path, len, modified, b),
    ensures
        options_identity(a) == options_identity(b),
{
    let prefix = le_bytes(CACHE_SCHEMA_VERSION as nat, 4) + encode_utf8(path) + le_bytes(len as nat, 8)
        + le_bytes(modified as nat, 16);
    let ma = cache_message(path, len, modified, a);
    let mb = cache_message(path, len, modified, b);
    assert(ma.last() == header_byte(a));
    assert(mb.last() == header_byte(b));
    let ea = delimiter_bytes(a);
    let eb = delimiter_bytes(b);
    assert(ma.drop_last() =~= prefix + ea);
    assert(mb.drop_last() =~= prefix + eb);
    assert(ea =~= (prefix + ea).subrange(prefix.len() as int, (prefix + ea).len() as int));
    assert(eb =~= (prefix + eb).subrange(prefix.len() as int, (prefix + eb).len() as int));
    assert(ea == eb);
    assert(ea[0] == eb[0]);
    match (a.delimiter, b.delimiter) {
        (Some(da), Some(db)) => {
            assert(encode_utf8(da@) =~= ea.drop_first());
            assert(encode_utf8(db@) =~= eb.drop_first());
            vstd::utf8::encode_utf8_decode_utf8(da@);
            vstd::utf8::encode_utf8_decode_utf8(db@);
        },
        _ => {},
    }
}

/// In an access order, an entry placed before another was accessed no later
/// than it: a pass, which proposes entries in that order, proposes the least
/// recently accessed first.
pub proof fn law_eviction_order(accessed: Seq<u128>, v: EvictionView, p: int, q: int)
    requires
        is_access_order(accessed, v.order),
        0 <= p < q < v.order.len(),
    ensures
        accessed[v.order[p] as int] <= accessed[v.order[q] as int],
{
    assert(accessed_before(accessed, v.order[p] as int, v.order[q] as int));
}

/// Eviction never removes a leased database: an entry that a pass started
/// with the store's leases proposes (one not marked leased) has no live
/// lease in that table.
pub proof fn law_victims_are_unleased(
    leases: Map<Seq<char>, u64>,
    entries: Seq<CacheEntry>,
    v: EvictionView,
    victim: int,
)
    requires
        v.leased.len() == entries.len(),
        forall|i: int| 0 <= i < entries.len() ==> #[trigger] v.leased[i] == (lease_count(leases, entries[i].path@) > 0),
        0 <= victim < entries.len(),
        !v.leased[victim],
    ensures
        lease_count(leases, entries[victim].path@) == 0,
{
    assert(v.leased[victim] == (lease_count(leases, entries[victim].path@) > 0));
}

} // verus!
