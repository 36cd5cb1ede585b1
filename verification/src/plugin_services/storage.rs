//! The plugin storage document: configuration, key-value entries and a
//! bounded change history, updated by compare-and-swap transactions.
//! Values are compact JSON texts; keys are short ASCII names.
use vstd::prelude::*;

use crate::plugin_services::{ServiceCode, ServiceError, MAX_REVISION};
use crate::runtime_update::{lemma_order_chars, order_char_slices, order_chars};
use crate::text::{chars_of, str_equal, utf8_len, utf8_width};

verus! {

pub const STATE_BYTES: u64 = 786432;
pub const VALUE_BYTES: usize = 131072;
pub const MAX_KEYS: usize = 1024;
pub const MAX_OPERATIONS: usize = 128;
pub const MAX_CHANGES: usize = 256;
pub const MAX_CHANGE_PAGE: usize = 100;
pub const MAX_KEY_BYTES: usize = 128;

/// One key and its JSON value text.
#[derive(Debug, Clone)]
pub struct StorageEntry {
    pub key: String,
    pub value: String,
}

/// One committed revision's change summary.
#[derive(Debug, Clone)]
pub struct StorageChange {
    pub cursor: u64,
    pub config_changed: bool,
    pub keys: Vec<String>,
}

/// The persistent storage document of one plugin namespace.
#[derive(Debug, Clone)]
pub struct StorageDocument {
    pub schema: u32,
    pub revision: u64,
    pub config: Vec<StorageEntry>,
    pub entries: Vec<StorageEntry>,
    pub changes: Vec<StorageChange>,
}

/// One requested entry change.
#[derive(Debug, Clone)]
pub enum StorageOperation {
    SetValue { key: String, value: String },
    Remove { key: String },
}

/// A compare-and-swap transaction request.
#[derive(Debug, Clone)]
pub struct TransactionInput {
    pub expected_revision: u64,
    pub config: Option<Vec<StorageEntry>>,
    pub operations: Vec<StorageOperation>,
}

/// Keys are distinct.
pub open spec fn unique_entries(es: Seq<StorageEntry>) -> bool {
    forall|i: int, j: int| 0 <= i < es.len() && 0 <= j < es.len() && i != j ==> es[i].key@ != es[j].key@
}

/// Some entry has the key.
pub open spec fn has_key(es: Seq<StorageEntry>, k: Seq<char>) -> bool {
    exists|i: int| 0 <= i < es.len() && es[i].key@ == k
}

/// The entries as a map from key to value text.
pub open spec fn entry_map(es: Seq<StorageEntry>) -> Map<Seq<char>, Seq<char>> {
    Map::new(
        |k: Seq<char>| has_key(es, k),
        |k: Seq<char>| es[choose|i: int| 0 <= i < es.len() && es[i].key@ == k].value@,
    )
}

pub proof fn lemma_entry_lookup(es: Seq<StorageEntry>, i: int)
    requires
        unique_entries(es),
        0 <= i < es.len(),
    ensures
        entry_map(es).contains_key(es[i].key@),
        entry_map(es)[es[i].key@] == es[i].value@,
{
    let k = es[i].key@;
    assert(has_key(es, k));
    let j = choose|j: int| 0 <= j < es.len() && es[j].key@ == k;
    assert(j == i);
}

pub proof fn lemma_entry_absent(es: Seq<StorageEntry>, k: Seq<char>)
    requires
        forall|i: int| 0 <= i < es.len() ==> es[i].key@ != k,
    ensures
        !entry_map(es).contains_key(k),
{
}

proof fn lemma_update_at(es: Seq<StorageEntry>, i: int, e: StorageEntry)
    requires
        unique_entries(es),
        0 <= i < es.len(),
        e.key@ == es[i].key@,
    ensures
        unique_entries(es.update(i, e)),
        entry_map(es.update(i, e)) =~= entry_map(es).insert(e.key@, e.value@),
{
    let es2 = es.update(i, e);
    assert forall|q: Seq<char>| #[trigger] entry_map(es2).contains_key(q) <==> entry_map(es).insert(e.key@, e.value@).contains_key(q) by {
        if has_key(es2, q) {
            let j = choose|j: int| 0 <= j < es2.len() && es2[j].key@ == q;
            if j != i {
                assert(es[j].key@ == q);
            }
        }
        if has_key(es, q) {
            let j = choose|j: int| 0 <= j < es.len() && es[j].key@ == q;
            if j == i {
                assert(es2[i].key@ == q);
            } else {
                assert(es2[j].key@ == q);
            }
        }
        if q == e.key@ {
            assert(es2[i].key@ == q);
        }
    }
    assert forall|q: Seq<char>| entry_map(es2).contains_key(q) implies #[trigger] entry_map(es2)[q] == entry_map(es).insert(e.key@, e.value@)[q] by {
        let j = choose|j: int| 0 <= j < es2.len() && es2[j].key@ == q;
        lemma_entry_lookup(es2, j);
        if j != i {
            lemma_entry_lookup(es, j);
        }
    }
}

proof fn lemma_push_new(es: Seq<StorageEntry>, e: StorageEntry)
    requires
        unique_entries(es),
        !has_key(es, e.key@),
    ensures
        unique_entries(es.push(e)),
        entry_map(es.push(e)) =~= entry_map(es).insert(e.key@, e.value@),
{
    let es2 = es.push(e);
    assert(unique_entries(es2)) by {
        assert forall|i: int, j: int| 0 <= i < es2.len() && 0 <= j < es2.len() && i != j implies es2[i].key@ != es2[j].key@ by {
            if i == es.len() as int {
                assert(es2[j] == es[j]);
            } else if j == es.len() as int {
                assert(es2[i] == es[i]);
            }
        }
    }
    assert forall|q: Seq<char>| #[trigger] entry_map(es2).contains_key(q) <==> entry_map(es).insert(e.key@, e.value@).contains_key(q) by {
        if has_key(es2, q) {
            let j = choose|j: int| 0 <= j < es2.len() && es2[j].key@ == q;
            if j < es.len() {
                assert(es[j].key@ == q);
            }
        }
        if has_key(es, q) {
            let j = choose|j: int| 0 <= j < es.len() && es[j].key@ == q;
            assert(es2[j].key@ == q);
        }
        if q == e.key@ {
            assert(es2[es.len() as int].key@ == q);
        }
    }
    assert forall|q: Seq<char>| entry_map(es2).contains_key(q) implies #[trigger] entry_map(es2)[q] == entry_map(es).insert(e.key@, e.value@)[q] by {
        let j = choose|j: int| 0 <= j < es2.len() && es2[j].key@ == q;
        lemma_entry_lookup(es2, j);
        if j < es.len() {
            lemma_entry_lookup(es, j);
        }
    }
}

proof fn lemma_remove_at(es: Seq<StorageEntry>, i: int)
    requires
        unique_entries(es),
        0 <= i < es.len(),
    ensures
        unique_entries(es.remove(i)),
        entry_map(es.remove(i)) =~= entry_map(es).remove(es[i].key@),
{
    let es2 = es.remove(i);
    let k = es[i].key@;
    assert forall|a: int, b: int| 0 <= a < es2.len() && 0 <= b < es2.len() && a != b implies es2[a].key@ != es2[b].key@ by {
        let a0 = if a < i { a } else { a + 1 };
        let b0 = if b < i { b } else { b + 1 };
        assert(es2[a] == es[a0]);
        assert(es2[b] == es[b0]);
    }
    assert forall|q: Seq<char>| #[trigger] entry_map(es2).contains_key(q) <==> entry_map(es).remove(k).contains_key(q) by {
        if has_key(es2, q) {
            let j = choose|j: int| 0 <= j < es2.len() && es2[j].key@ == q;
            let j0 = if j < i { j } else { j + 1 };
            assert(es2[j] == es[j0]);
            assert(es[j0].key@ == q);
        }
        if has_key(es, q) && q != k {
            let j = choose|j: int| 0 <= j < es.len() && es[j].key@ == q;
            if j < i {
                assert(es2[j] == es[j]);
            } else {
                assert(j != i);
                assert(es2[j - 1] == es[j]);
            }
        }
    }
    assert forall|q: Seq<char>| entry_map(es2).contains_key(q) implies #[trigger] entry_map(es2)[q] == entry_map(es).remove(k)[q] by {
        let j = choose|j: int| 0 <= j < es2.len() && es2[j].key@ == q;
        lemma_entry_lookup(es2, j);
        let j0 = if j < i { j } else { j + 1 };
        assert(es2[j] == es[j0]);
        lemma_entry_lookup(es, j0);
    }
}

/// Index of the entry with the key.
pub fn find_entry(es: &Vec<StorageEntry>, key: &str) -> (r: Option<usize>)
    ensures
        match r {
            Some(i) => i < es@.len() && es@[i as int].key@ == key@,
            None => !has_key(es@, key@),
        },
{
    let mut i: usize = 0;
    while i < es.len()
        invariant
            i <= es@.len(),
            forall|j: int| 0 <= j < i ==> es@[j].key@ != key@,
        decreases es@.len() - i,
    {
        if str_equal(es[i].key.as_str(), key) {
            return Some(i);
        }
        i = i + 1;
    }
    None
}

/// Sets `key` to `value`.
pub fn set_entry(es: &mut Vec<StorageEntry>, key: String, value: String)
    requires
        unique_entries(old(es)@),
    ensures
        unique_entries(final(es)@),
        entry_map(final(es)@) == entry_map(old(es)@).insert(key@, value@),
        final(es)@.len() <= old(es)@.len() + 1,
        forall|j: int| 0 <= j < final(es)@.len() ==> (#[trigger] final(es)@[j] == (StorageEntry { key, value })
            || old(es)@.contains(final(es)@[j])),
{
    match find_entry(es, key.as_str()) {
        Some(i) => {
            let e = StorageEntry { key, value };
            proof {
                lemma_update_at(es@, i as int, e);
            }
            let ghost before = es@;
            es.set(i, e);
            proof {
                assert forall|j: int| 0 <= j < es@.len() implies (#[trigger] es@[j] == e || before.contains(es@[j])) by {
                    if j != i {
                        assert(es@[j] == before[j]);
                    }
                }
            }
        },
        None => {
            let e = StorageEntry { key, value };
            proof {
                lemma_push_new(es@, e);
            }
            let ghost before = es@;
            es.push(e);
            proof {
                assert forall|j: int| 0 <= j < es@.len() implies (#[trigger] es@[j] == e || before.contains(es@[j])) by {
                    if j < before.len() {
                        assert(es@[j] == before[j]);
                    }
                }
            }
        },
    }
}

/// Removes `key` if present.
pub fn remove_entry(es: &mut Vec<StorageEntry>, key: &str)
    requires
        unique_entries(old(es)@),
    ensures
        unique_entries(final(es)@),
        entry_map(final(es)@) == entry_map(old(es)@).remove(key@),
        final(es)@.len() <= old(es)@.len(),
        forall|j: int| 0 <= j < final(es)@.len() ==> old(es)@.contains(#[trigger] final(es)@[j]),
{
    match find_entry(es, key) {
        Some(i) => {
            proof {
                lemma_remove_at(es@, i as int);
            }
            let ghost before = es@;
            es.remove(i);
            proof {
                assert forall|j: int| 0 <= j < es@.len() implies before.contains(#[trigger] es@[j]) by {
                    if j < i {
                        assert(es@[j] == before[j]);
                    } else {
                        assert(es@[j] == before[j + 1]);
                    }
                }
            }
        },
        None => {
            proof {
                assert(entry_map(es@).remove(key@) =~= entry_map(es@));
            }
        },
    }
}

} // verus!

verus! {

/// A storage key: 1..=128 ASCII letters, digits, dots, underscores or hyphens.
pub open spec fn spec_valid_key(k: Seq<char>) -> bool {
    &&& 1 <= k.len() <= MAX_KEY_BYTES
    &&& forall|i: int| 0 <= i < k.len() ==> key_char(#[trigger] k[i])
}

pub open spec fn key_char(c: char) -> bool {
    crate::text::is_ascii_alnum(c) || c == '.' || c == '_' || c == '-'
}

/// A storage value: a JSON text of at most 128 KiB.
pub open spec fn spec_valid_value(v: Seq<char>) -> bool {
    utf8_len(v) <= VALUE_BYTES
}

/// Bytes of one character inside a JSON string literal.
pub open spec fn escape_width(c: char) -> nat {
    if c == '"' || c == '\\' {
        2
    } else if (c as u32) == 8 || (c as u32) == 12 || c == '\n' || c == '\r' || c == '\t' {
        2
    } else if (c as u32) < 0x20 {
        6
    } else {
        utf8_width(c)
    }
}

/// Bytes of the body of a JSON string literal.
pub open spec fn escaped_len(s: Seq<char>) -> nat
    decreases s.len(),
{
    if s.len() == 0 {
        0
    } else {
        escaped_len(s.drop_last()) + escape_width(s.last())
    }
}

/// Bytes of `"key":value`.
pub open spec fn member_bytes(e: StorageEntry) -> nat {
    escaped_len(e.key@) + 3 + utf8_len(e.value@)
}

/// Bytes of the compact JSON object of the entries.
pub open spec fn members_bytes(es: Seq<StorageEntry>) -> nat
    decreases es.len(),
{
    if es.len() == 0 {
        0
    } else {
        members_bytes(es.drop_last()) + member_bytes(es.last())
    }
}

pub open spec fn object_bytes(es: Seq<StorageEntry>) -> nat {
    2 + members_bytes(es) + if es.len() > 0 { (es.len() - 1) as nat } else { 0 }
}

/// The first error of a validated object: its size, then its members in order.
pub open spec fn entry_error(e: StorageEntry) -> Option<ServiceCode> {
    if !spec_valid_key(e.key@) {
        Some(ServiceCode::InvalidParams)
    } else if !spec_valid_value(e.value@) {
        Some(ServiceCode::QuotaExceeded)
    } else {
        None
    }
}

pub open spec fn first_entry_error(es: Seq<StorageEntry>) -> Option<ServiceCode>
    decreases es.len(),
{
    if es.len() == 0 {
        None
    } else if entry_error(es[0]) is Some {
        entry_error(es[0])
    } else {
        first_entry_error(es.drop_first())
    }
}

pub open spec fn object_error(es: Seq<StorageEntry>) -> Option<ServiceCode> {
    if es.len() > MAX_KEYS || object_bytes(es) > VALUE_BYTES {
        Some(ServiceCode::QuotaExceeded)
    } else {
        first_entry_error(es)
    }
}

/// Keys strictly ascending in code-point order.
pub open spec fn sorted_keys(ks: Seq<Seq<char>>) -> bool {
    forall|i: int, j: int| 0 <= i < j < ks.len() ==> order_chars(ks[i], ks[j]) < 0
}

pub open spec fn entry_keys(es: Seq<StorageEntry>) -> Seq<Seq<char>> {
    es.map_values(|e: StorageEntry| e.key@)
}

pub open spec fn string_views(v: Seq<String>) -> Seq<Seq<char>> {
    v.map_values(|s: String| s@)
}

/// A valid change record.
pub open spec fn valid_change(c: StorageChange) -> bool {
    &&& c.cursor != 0
    &&& c.keys@.len() <= MAX_OPERATIONS
    &&& (c.config_changed || c.keys@.len() > 0)
    &&& sorted_keys(string_views(c.keys@))
    &&& forall|i: int| 0 <= i < c.keys@.len() ==> spec_valid_key(#[trigger] c.keys@[i]@)
}

/// The storage document invariants.
pub open spec fn spec_valid_document(d: StorageDocument) -> bool {
    &&& d.schema == 1
    &&& d.revision <= MAX_REVISION
    &&& d.entries@.len() <= MAX_KEYS
    &&& d.changes@.len() <= MAX_CHANGES
    &&& (d.revision == 0) == (d.changes@.len() == 0)
    &&& forall|i: int| 0 <= i < d.changes@.len() - 1 ==> (#[trigger] d.changes@[i]).cursor + 1 == d.changes@[i + 1].cursor
    &&& (d.changes@.len() > 0 ==> d.changes@.last().cursor == d.revision)
    &&& forall|i: int| 0 <= i < d.changes@.len() ==> valid_change(#[trigger] d.changes@[i])
    &&& object_error(d.config@) is None
    &&& forall|i: int| 0 <= i < d.entries@.len() ==> entry_error(#[trigger] d.entries@[i]) is None
}

/// Whether the key is valid.
pub fn valid_key(key: &str) -> (b: bool)
    ensures
        b == spec_valid_key(key@),
{
    let v = chars_of(key);
    if v.len() == 0 || v.len() > MAX_KEY_BYTES {
        return false;
    }
    let mut i: usize = 0;
    while i < v.len()
        invariant
            i <= v@.len(),
            v@ == key@,
            forall|j: int| 0 <= j < i ==> key_char(#[trigger] v@[j]),
        decreases v@.len() - i,
    {
        let c = v[i];
        if !(('0' <= c && c <= '9') || ('a' <= c && c <= 'z') || ('A' <= c && c <= 'Z') || c == '.' || c == '_' || c == '-') {
            assert(!key_char(v@[i as int]));
            return false;
        }
        i = i + 1;
    }
    true
}

/// Refuses an invalid storage key.
pub fn validate_key(key: &str) -> (r: Result<(), ServiceError>)
    ensures
        r is Ok <==> spec_valid_key(key@),
        r matches Err(e) ==> e.code == ServiceCode::InvalidParams,
{
    if !valid_key(key) {
        return Err(ServiceError::new(
            ServiceCode::InvalidParams,
            "storage keys must be 1..128 ASCII letters, digits, dots, underscores or hyphens",
        ));
    }
    Ok(())
}

fn entry_check(e: &StorageEntry) -> (r: Option<ServiceCode>)
    ensures
        r == entry_error(*e),
{
    if !valid_key(e.key.as_str()) {
        return Some(ServiceCode::InvalidParams);
    }
    let v = chars_of(e.value.as_str());
    if !crate::text::utf8_within(v.as_slice(), VALUE_BYTES) {
        return Some(ServiceCode::QuotaExceeded);
    }
    None
}

proof fn lemma_escaped_len_push(s: Seq<char>, c: char)
    ensures
        escaped_len(s.push(c)) == escaped_len(s) + escape_width(c),
{
    assert(s.push(c).drop_last() =~= s);
}

fn escaped_within(v: &[char], limit: usize) -> (r: Option<usize>)
    ensures
        match r {
            Some(n) => n == escaped_len(v@) && n <= limit,
            None => escaped_len(v@) > limit,
        },
{
    let mut n: usize = 0;
    let mut i: usize = 0;
    while i < v.len()
        invariant
            i <= v@.len(),
            n == escaped_len(v@.take(i as int)),
            n <= limit,
        decreases v@.len() - i,
    {
        let c = v[i];
        let code: u32 = c as u32;
        let w: usize = if c == '"' || c == '\\' {
            2
        } else if code == 8 || code == 12 || c == '\n' || c == '\r' || c == '\t' {
            2
        } else if code < 0x20 {
            6
        } else if code < 0x80 {
            1
        } else if code < 0x800 {
            2
        } else if code < 0x10000 {
            3
        } else {
            4
        };
        proof {
            lemma_escaped_len_push(v@.take(i as int), c);
            assert(v@.take(i as int).push(c) =~= v@.take(i as int + 1));
        }
        if w > limit - n {
            proof {
                lemma_escaped_prefix(v@, i as int + 1);
            }
            return None;
        }
        n = n + w;
        i = i + 1;
    }
    proof {
        assert(v@.take(v@.len() as int) =~= v@);
    }
    Some(n)
}

proof fn lemma_escaped_prefix(s: Seq<char>, k: int)
    requires
        0 <= k <= s.len(),
    ensures
        escaped_len(s.take(k)) <= escaped_len(s),
    decreases s.len() - k,
{
    if k < s.len() {
        lemma_escaped_prefix(s, k + 1);
        assert(s.take(k + 1).drop_last() =~= s.take(k));
    } else {
        assert(s.take(k) =~= s);
    }
}

fn utf8_count_within(v: &[char], limit: usize) -> (r: Option<usize>)
    ensures
        match r {
            Some(n) => n == utf8_len(v@) && n <= limit,
            None => utf8_len(v@) > limit,
        },
{
    let mut n: usize = 0;
    let mut i: usize = 0;
    while i < v.len()
        invariant
            i <= v@.len(),
            n == utf8_len(v@.take(i as int)),
            n <= limit,
        decreases v@.len() - i,
    {
        let code: u32 = v[i] as u32;
        let w: usize = if code < 0x80 {
            1
        } else if code < 0x800 {
            2
        } else if code < 0x10000 {
            3
        } else {
            4
        };
        proof {
            crate::text::lemma_utf8_len_push(v@.take(i as int), v@[i as int]);
            assert(v@.take(i as int).push(v@[i as int]) =~= v@.take(i as int + 1));
        }
        if w > limit - n {
            proof {
                crate::text::lemma_utf8_len_prefix(v@, i as int + 1);
            }
            return None;
        }
        n = n + w;
        i = i + 1;
    }
    proof {
        assert(v@.take(v@.len() as int) =~= v@);
    }
    Some(n)
}

proof fn lemma_members_prefix(es: Seq<StorageEntry>, k: int)
    requires
        0 <= k <= es.len(),
    ensures
        members_bytes(es.take(k)) + (if k > 0 { k - 1 } else { 0 }) <= members_bytes(es) + (if es.len() > 0 { es.len() - 1 } else { 0 }),
    decreases es.len() - k,
{
    if k < es.len() {
        lemma_members_prefix(es, k + 1);
        assert(es.take(k + 1).drop_last() =~= es.take(k));
    } else {
        assert(es.take(k) =~= es);
    }
}

proof fn lemma_member_too_big(es: Seq<StorageEntry>, i: int)
    requires
        0 <= i < es.len(),
        member_bytes(es[i]) > VALUE_BYTES,
    ensures
        object_bytes(es) > VALUE_BYTES,
{
    lemma_members_prefix(es, i + 1);
    assert(es.take(i + 1).drop_last() =~= es.take(i));
    assert(es.take(i + 1).last() == es[i]);
    assert(members_bytes(es.take(i + 1)) == members_bytes(es.take(i)) + member_bytes(es[i]));
}

/// Whether the compact JSON object of the entries fits in `VALUE_BYTES`.
fn object_fits(es: &Vec<StorageEntry>) -> (b: bool)
    ensures
        b == (object_bytes(es@) <= VALUE_BYTES),
{
    let limit: usize = VALUE_BYTES;
    let mut total: usize = 2;
    let mut i: usize = 0;
    while i < es.len()
        invariant
            i <= es@.len(),
            total == 2 + members_bytes(es@.take(i as int)) + (if i > 0 { i - 1 } else { 0 }),
            total <= limit,
            limit == VALUE_BYTES,
        decreases es@.len() - i,
    {
        let sep: usize = if i > 0 { 1 } else { 0 };
        let kv = chars_of(es[i].key.as_str());
        let vv = chars_of(es[i].value.as_str());
        proof {
            assert(es@.take(i as int + 1).drop_last() =~= es@.take(i as int));
            assert(es@.take(i as int + 1).last() == es@[i as int]);
        }
        let k = match escaped_within(kv.as_slice(), limit) {
            Some(k) => k,
            None => {
                proof {
                    lemma_member_too_big(es@, i as int);
                }
                return false;
            },
        };
        let v = match utf8_count_within(vv.as_slice(), limit) {
            Some(v) => v,
            None => {
                proof {
                    lemma_member_too_big(es@, i as int);
                }
                return false;
            },
        };
        if k > limit || v > limit - k || 3 + sep > limit - k - v || total > limit - k - v - 3 - sep {
            proof {
                lemma_members_prefix(es@, i as int + 1);
            }
            return false;
        }
        total = total + k + v + 3 + sep;
        i = i + 1;
    }
    proof {
        assert(es@.take(es@.len() as int) =~= es@);
    }
    true
}

/// The first error of the entries in order.
fn first_entry_check(es: &Vec<StorageEntry>) -> (r: Option<ServiceCode>)
    ensures
        r == first_entry_error(es@),
{
    let mut i: usize = 0;
    proof {
        assert(es@.skip(0) =~= es@);
    }
    while i < es.len()
        invariant
            i <= es@.len(),
            first_entry_error(es@) == first_entry_error(es@.skip(i as int)),
        decreases es@.len() - i,
    {
        proof {
            assert(es@.skip(i as int)[0] == es@[i as int]);
            assert(es@.skip(i as int).drop_first() =~= es@.skip(i as int + 1));
        }
        match entry_check(&es[i]) {
            Some(code) => return Some(code),
            None => {},
        }
        i = i + 1;
    }
    None
}

/// Refuses an object over its key-count or size quota, or with an invalid member.
pub fn validate_object(es: &Vec<StorageEntry>) -> (r: Result<(), ServiceError>)
    ensures
        match object_error(es@) {
            Some(code) => r matches Err(e) && e.code == code,
            None => r is Ok,
        },
{
    if es.len() > MAX_KEYS || !object_fits(es) {
        return Err(ServiceError::new(ServiceCode::QuotaExceeded, "config exceeds its quota"));
    }
    match first_entry_check(es) {
        Some(ServiceCode::InvalidParams) => Err(ServiceError::new(
            ServiceCode::InvalidParams,
            "storage keys must be 1..128 ASCII letters, digits, dots, underscores or hyphens",
        )),
        Some(code) => Err(ServiceError::new(code, "storage value exceeds its quota")),
        None => Ok(()),
    }
}

} // verus!

verus! {

proof fn lemma_strict_trans(a: Seq<char>, b: Seq<char>, c: Seq<char>)
    requires
        order_chars(a, b) < 0,
        order_chars(b, c) <= 0,
    ensures
        order_chars(a, c) < 0,
{
    lemma_order_chars(a, b, c);
    lemma_order_chars(a, c, b);
    lemma_order_chars(b, c, a);
    lemma_order_chars(c, b, a);
    if order_chars(a, c) == 0 {
        assert(a =~= c);
    }
}

proof fn lemma_sorted_from_adjacent(ks: Seq<Seq<char>>)
    requires
        forall|i: int| 0 <= i < ks.len() - 1 ==> order_chars(#[trigger] ks[i], ks[i + 1]) < 0,
    ensures
        sorted_keys(ks),
{
    assert forall|i: int, j: int| 0 <= i < j < ks.len() implies order_chars(ks[i], ks[j]) < 0 by {
        lemma_chain(ks, i, j);
    }
}

proof fn lemma_chain(ks: Seq<Seq<char>>, i: int, j: int)
    requires
        0 <= i < j < ks.len(),
        forall|k: int| 0 <= k < ks.len() - 1 ==> order_chars(#[trigger] ks[k], ks[k + 1]) < 0,
    ensures
        order_chars(ks[i], ks[j]) < 0,
    decreases j - i,
{
    if j > i + 1 {
        lemma_chain(ks, i, j - 1);
        assert(order_chars(ks[j - 1], ks[j]) < 0);
        lemma_strict_trans(ks[i], ks[j - 1], ks[j]);
    }
}

fn keys_sorted(keys: &Vec<String>) -> (b: bool)
    ensures
        b == sorted_keys(string_views(keys@)),
{
    let mut i: usize = 1;
    if keys.len() < 2 {
        return true;
    }
    while i < keys.len()
        invariant
            1 <= i <= keys@.len(),
            forall|k: int| 0 <= k < i - 1 ==> order_chars(#[trigger] string_views(keys@)[k], string_views(keys@)[k + 1]) < 0,
        decreases keys@.len() - i,
    {
        let a = chars_of(keys[i - 1].as_str());
        let b = chars_of(keys[i].as_str());
        if order_char_slices(a.as_slice(), b.as_slice()) >= 0 {
            assert(string_views(keys@)[i - 1] == a@);
            assert(string_views(keys@)[i as int] == b@);
            return false;
        }
        i = i + 1;
    }
    proof {
        lemma_sorted_from_adjacent(string_views(keys@));
    }
    true
}

fn key_less(a: &String, b: &[char]) -> (r: bool)
    ensures
        r == (order_chars(a@, b@) < 0),
{
    let x = chars_of(a.as_str());
    order_char_slices(x.as_slice(), b) < 0
}

/// Inserts a key into a strictly ascending key list unless present.
pub fn insert_key(keys: &mut Vec<String>, key: String)
    requires
        sorted_keys(string_views(old(keys)@)),
    ensures
        sorted_keys(string_views(final(keys)@)),
        string_views(final(keys)@).to_set() == string_views(old(keys)@).to_set().insert(key@),
        final(keys)@.len() <= old(keys)@.len() + 1,
{
    let k = chars_of(key.as_str());
    let ghost ks = string_views(keys@);
    let mut p: usize = 0;
    while p < keys.len() && key_less(&keys[p], k.as_slice())
        invariant
            p <= keys@.len(),
            ks == string_views(keys@),
            k@ == key@,
            forall|i: int| 0 <= i < p ==> order_chars(#[trigger] ks[i], key@) < 0,
        decreases keys@.len() - p,
    {
        p = p + 1;
    }
    if p < keys.len() {
        let c = chars_of(keys[p].as_str());
        assert(c@ == ks[p as int]);
        if order_char_slices(c.as_slice(), k.as_slice()) == 0 {
            proof {
                lemma_order_chars(c@, k@, k@);
                assert(ks.to_set().insert(key@) =~= ks.to_set());
            }
            return;
        }
    }
    proof {
        assert forall|j: int| p <= j < ks.len() implies order_chars(key@, #[trigger] ks[j]) < 0 by {
            lemma_order_chars(ks[p as int], key@, key@);
            if j > p {
                assert(order_chars(ks[p as int], ks[j]) < 0);
                lemma_order_chars(key@, ks[p as int], ks[j]);
                lemma_strict_trans(key@, ks[p as int], ks[j]);
            }
        }
    }
    keys.insert(p, key);
    proof {
        let ns = string_views(keys@);
        assert(ns =~= ks.insert(p as int, k@));
        assert forall|i: int, j: int| 0 <= i < j < ns.len() implies order_chars(ns[i], ns[j]) < 0 by {
            if i < p && j < p {
            } else if i < p && j == p {
            } else if i < p && j > p {
                assert(ns[j] == ks[j - 1]);
                lemma_strict_trans(ks[i], key@, ks[j - 1]);
            } else if i == p {
                assert(ns[j] == ks[j - 1]);
            } else {
                assert(ns[i] == ks[i - 1]);
                assert(ns[j] == ks[j - 1]);
            }
        }
        assert(ns.to_set() =~= ks.to_set().insert(key@)) by {
            assert forall|x: Seq<char>| ns.to_set().contains(x) <==> ks.to_set().insert(key@).contains(x) by {
                if ns.contains(x) {
                    let i = choose|i: int| 0 <= i < ns.len() && ns[i] == x;
                    if i < p {
                        assert(ks[i] == x);
                    } else if i > p {
                        assert(ks[i - 1] == x);
                    }
                }
                if ks.contains(x) {
                    let i = choose|i: int| 0 <= i < ks.len() && ks[i] == x;
                    if i < p {
                        assert(ns[i] == x);
                    } else {
                        assert(ns[i + 1] == x);
                    }
                }
                if x == key@ {
                    assert(ns[p as int] == x);
                }
            }
        }
    }
}

/// Whether two unique-key entry lists hold the same map.
pub fn maps_equal(a: &Vec<StorageEntry>, b: &Vec<StorageEntry>) -> (r: bool)
    requires
        unique_entries(a@),
        unique_entries(b@),
    ensures
        r == (entry_map(a@) == entry_map(b@)),
{
    let mut i: usize = 0;
    while i < a.len()
        invariant
            i <= a@.len(),
            unique_entries(a@),
            unique_entries(b@),
            forall|j: int| 0 <= j < i ==> entry_map(b@).contains_key(#[trigger] a@[j].key@) && entry_map(b@)[a@[j].key@] == a@[j].value@,
        decreases a@.len() - i,
    {
        proof {
            lemma_entry_lookup(a@, i as int);
        }
        match find_entry(b, a[i].key.as_str()) {
            Some(j) => {
                proof {
                    lemma_entry_lookup(b@, j as int);
                }
                if !str_equal(b[j].value.as_str(), a[i].value.as_str()) {
                    return false;
                }
            },
            None => {
                return false;
            },
        }
        i = i + 1;
    }
    let mut j: usize = 0;
    while j < b.len()
        invariant
            j <= b@.len(),
            unique_entries(a@),
            unique_entries(b@),
            forall|x: int| 0 <= x < a@.len() ==> entry_map(b@).contains_key(#[trigger] a@[x].key@) && entry_map(b@)[a@[x].key@] == a@[x].value@,
            forall|x: int| 0 <= x < j ==> entry_map(a@).contains_key(#[trigger] b@[x].key@),
        decreases b@.len() - j,
    {
        match find_entry(a, b[j].key.as_str()) {
            Some(x) => {
                proof {
                    lemma_entry_lookup(a@, x as int);
                }
            },
            None => {
                proof {
                    lemma_entry_lookup(b@, j as int);
                }
                return false;
            },
        }
        j = j + 1;
    }
    proof {
        assert forall|q: Seq<char>| #[trigger] entry_map(a@).contains_key(q) <==> entry_map(b@).contains_key(q) by {
            if has_key(a@, q) {
                let x = choose|x: int| 0 <= x < a@.len() && a@[x].key@ == q;
                assert(entry_map(b@).contains_key(a@[x].key@));
            }
            if has_key(b@, q) {
                let x = choose|x: int| 0 <= x < b@.len() && b@[x].key@ == q;
                assert(entry_map(a@).contains_key(b@[x].key@));
            }
        }
        assert forall|q: Seq<char>| entry_map(a@).contains_key(q) implies #[trigger] entry_map(a@)[q] == entry_map(b@)[q] by {
            let x = choose|x: int| 0 <= x < a@.len() && a@[x].key@ == q;
            lemma_entry_lookup(a@, x);
            assert(entry_map(b@)[a@[x].key@] == a@[x].value@);
        }
        assert(entry_map(a@) =~= entry_map(b@));
    }
    true
}

} // verus!

verus! {

fn change_ok(c: &StorageChange) -> (b: bool)
    ensures
        b == valid_change(*c),
{
    if c.cursor == 0 || c.keys.len() > MAX_OPERATIONS || !(c.config_changed || c.keys.len() > 0) {
        return false;
    }
    if !keys_sorted(&c.keys) {
        return false;
    }
    let mut i: usize = 0;
    while i < c.keys.len()
        invariant
            i <= c.keys@.len(),
            forall|j: int| 0 <= j < i ==> spec_valid_key(#[trigger] c.keys@[j]@),
        decreases c.keys@.len() - i,
    {
        if !valid_key(c.keys[i].as_str()) {
            return false;
        }
        i = i + 1;
    }
    true
}

fn corrupt() -> (e: ServiceError)
    ensures
        e.code == ServiceCode::StorageCorrupt,
{
    ServiceError::new(ServiceCode::StorageCorrupt, "storage document invariants are invalid")
}

/// Refuses a storage document that breaks its invariants.
pub fn validate_document(d: &StorageDocument) -> (r: Result<(), ServiceError>)
    ensures
        r is Ok <==> spec_valid_document(*d),
        r matches Err(e) ==> e.code == ServiceCode::StorageCorrupt,
{
    if d.schema != 1 || d.revision > MAX_REVISION || d.entries.len() > MAX_KEYS || d.changes.len() > MAX_CHANGES
        || (d.revision == 0) != (d.changes.len() == 0) {
        return Err(corrupt());
    }
    let n = d.changes.len();
    let mut i: usize = 0;
    while i < n
        invariant
            i <= n,
            n == d.changes@.len(),
            n <= MAX_CHANGES,
            forall|j: int| 0 <= j < i && j < n - 1 ==> (#[trigger] d.changes@[j]).cursor + 1 == d.changes@[j + 1].cursor,
            forall|j: int| 0 <= j < i ==> valid_change(#[trigger] d.changes@[j]),
        decreases n - i,
    {
        if !change_ok(&d.changes[i]) {
            return Err(corrupt());
        }
        if i + 1 < n {
            if d.changes[i].cursor >= u64::MAX || d.changes[i].cursor + 1 != d.changes[i + 1].cursor {
                return Err(corrupt());
            }
        }
        i = i + 1;
    }
    if n > 0 && d.changes[n - 1].cursor != d.revision {
        return Err(corrupt());
    }
    if validate_object(&d.config).is_err() {
        return Err(corrupt());
    }
    let mut k: usize = 0;
    while k < d.entries.len()
        invariant
            k <= d.entries@.len(),
            forall|j: int| 0 <= j < k ==> entry_error(#[trigger] d.entries@[j]) is None,
        decreases d.entries@.len() - k,
    {
        if entry_check(&d.entries[k]).is_some() {
            return Err(corrupt());
        }
        k = k + 1;
    }
    Ok(())
}

/// The entry map after one operation.
pub open spec fn apply_op(m: Map<Seq<char>, Seq<char>>, op: StorageOperation) -> Map<Seq<char>, Seq<char>> {
    match op {
        StorageOperation::SetValue { key, value } => m.insert(key@, value@),
        StorageOperation::Remove { key } => m.remove(key@),
    }
}

/// The entry map after the operations, in order.
pub open spec fn apply_ops(m: Map<Seq<char>, Seq<char>>, ops: Seq<StorageOperation>) -> Map<Seq<char>, Seq<char>>
    decreases ops.len(),
{
    if ops.len() == 0 {
        m
    } else {
        apply_op(apply_ops(m, ops.drop_last()), ops.last())
    }
}

/// The operation's key.
pub open spec fn op_key(op: StorageOperation) -> Seq<char> {
    match op {
        StorageOperation::SetValue { key, .. } => key@,
        StorageOperation::Remove { key } => key@,
    }
}

/// The operation changes the map.
pub open spec fn op_changes(m: Map<Seq<char>, Seq<char>>, op: StorageOperation) -> bool {
    match op {
        StorageOperation::SetValue { key, value } => !(m.contains_key(key@) && m[key@] == value@),
        StorageOperation::Remove { key } => m.contains_key(key@),
    }
}

/// Keys whose operations changed the map.
pub open spec fn changed_keys(m: Map<Seq<char>, Seq<char>>, ops: Seq<StorageOperation>) -> Set<Seq<char>>
    decreases ops.len(),
{
    if ops.len() == 0 {
        Set::empty()
    } else {
        let before = apply_ops(m, ops.drop_last());
        if op_changes(before, ops.last()) {
            changed_keys(m, ops.drop_last()).insert(op_key(ops.last()))
        } else {
            changed_keys(m, ops.drop_last())
        }
    }
}

/// The first invalid operation's error, in order.
pub open spec fn op_error(op: StorageOperation) -> Option<ServiceCode> {
    match op {
        StorageOperation::SetValue { key, value } => if !spec_valid_key(key@) {
            Some(ServiceCode::InvalidParams)
        } else if !spec_valid_value(value@) {
            Some(ServiceCode::QuotaExceeded)
        } else {
            None
        },
        StorageOperation::Remove { key } => if !spec_valid_key(key@) {
            Some(ServiceCode::InvalidParams)
        } else {
            None
        },
    }
}

pub open spec fn first_op_error(ops: Seq<StorageOperation>) -> Option<ServiceCode>
    decreases ops.len(),
{
    if ops.len() == 0 {
        None
    } else if op_error(ops[0]) is Some {
        op_error(ops[0])
    } else {
        first_op_error(ops.drop_first())
    }
}

/// The error a transaction is refused with before any change, if any:
/// request shape, configuration, operations, stored document, revision.
pub open spec fn transaction_precheck(d: StorageDocument, input: TransactionInput) -> Option<ServiceCode> {
    if input.operations@.len() > MAX_OPERATIONS || (input.config is None && input.operations@.len() == 0) {
        Some(ServiceCode::InvalidParams)
    } else if input.config matches Some(c) && object_error(c@) is Some {
        object_error(input.config.unwrap()@)
    } else if first_op_error(input.operations@) is Some {
        first_op_error(input.operations@)
    } else if !spec_valid_document(d) {
        Some(ServiceCode::StorageCorrupt)
    } else if d.revision != input.expected_revision {
        Some(ServiceCode::StorageConflict)
    } else if d.revision == MAX_REVISION {
        Some(ServiceCode::RevisionExhausted)
    } else {
        None
    }
}

/// Whether the transaction replaces the configuration.
pub open spec fn config_changes(d: StorageDocument, input: TransactionInput) -> bool {
    input.config matches Some(c) && entry_map(c@) != entry_map(d.config@)
}

/// The changes retained after appending one more.
pub open spec fn retained_changes(changes: Seq<StorageChange>) -> Seq<StorageChange> {
    if changes.len() + 1 > MAX_CHANGES {
        changes.drop_first()
    } else {
        changes
    }
}

fn op_check(op: &StorageOperation) -> (r: Option<ServiceCode>)
    ensures
        r == op_error(*op),
{
    match op {
        StorageOperation::SetValue { key, value } => {
            if !valid_key(key.as_str()) {
                return Some(ServiceCode::InvalidParams);
            }
            let v = chars_of(value.as_str());
            if !crate::text::utf8_within(v.as_slice(), VALUE_BYTES) {
                return Some(ServiceCode::QuotaExceeded);
            }
            None
        },
        StorageOperation::Remove { key } => {
            if !valid_key(key.as_str()) {
                return Some(ServiceCode::InvalidParams);
            }
            None
        },
    }
}

fn first_op_check(ops: &Vec<StorageOperation>) -> (r: Option<ServiceCode>)
    ensures
        r == first_op_error(ops@),
{
    let mut i: usize = 0;
    proof {
        assert(ops@.skip(0) =~= ops@);
    }
    while i < ops.len()
        invariant
            i <= ops@.len(),
            first_op_error(ops@) == first_op_error(ops@.skip(i as int)),
        decreases ops@.len() - i,
    {
        proof {
            assert(ops@.skip(i as int)[0] == ops@[i as int]);
            assert(ops@.skip(i as int).drop_first() =~= ops@.skip(i as int + 1));
        }
        match op_check(&ops[i]) {
            Some(code) => return Some(code),
            None => {},
        }
        i = i + 1;
    }
    None
}

} // verus!

verus! {

pub proof fn lemma_entry_map_len(es: Seq<StorageEntry>)
    requires
        unique_entries(es),
    ensures
        entry_map(es).dom().finite(),
        entry_map(es).dom().len() == es.len(),
    decreases es.len(),
{
    if es.len() == 0 {
        assert(entry_map(es).dom() =~= Set::<Seq<char>>::empty());
    } else {
        let init = es.drop_last();
        assert(unique_entries(init)) by {
            assert forall|i: int, j: int| 0 <= i < init.len() && 0 <= j < init.len() && i != j implies init[i].key@ != init[j].key@ by {
                assert(init[i] == es[i] && init[j] == es[j]);
            }
        }
        lemma_entry_map_len(init);
        assert(!has_key(init, es.last().key@)) by {
            if has_key(init, es.last().key@) {
                let i = choose|i: int| 0 <= i < init.len() && init[i].key@ == es.last().key@;
                assert(es[i].key@ == es[es.len() - 1].key@);
            }
        }
        lemma_push_new(init, es.last());
        assert(init.push(es.last()) =~= es);
        assert(entry_map(es).dom() =~= entry_map(init).dom().insert(es.last().key@));
    }
}

proof fn lemma_apply_step(m: Map<Seq<char>, Seq<char>>, ops: Seq<StorageOperation>, i: int)
    requires
        0 <= i < ops.len(),
    ensures
        apply_ops(m, ops.take(i + 1)) == apply_op(apply_ops(m, ops.take(i)), ops[i]),
        changed_keys(m, ops.take(i + 1)) == (if op_changes(apply_ops(m, ops.take(i)), ops[i]) {
            changed_keys(m, ops.take(i)).insert(op_key(ops[i]))
        } else {
            changed_keys(m, ops.take(i))
        }),
{
    assert(ops.take(i + 1).drop_last() =~= ops.take(i));
    assert(ops.take(i + 1).last() == ops[i]);
}

proof fn lemma_first_op_error_none(ops: Seq<StorageOperation>, i: int)
    requires
        first_op_error(ops) is None,
        0 <= i < ops.len(),
    ensures
        op_error(ops[i]) is None,
    decreases ops.len(),
{
    if i > 0 {
        assert(ops.drop_first()[i - 1] == ops[i]);
        lemma_first_op_error_none(ops.drop_first(), i - 1);
    }
}

proof fn lemma_first_entry_error_none(es: Seq<StorageEntry>, i: int)
    requires
        first_entry_error(es) is None,
        0 <= i < es.len(),
    ensures
        entry_error(es[i]) is None,
    decreases es.len(),
{
    if i > 0 {
        assert(es.drop_first()[i - 1] == es[i]);
        lemma_first_entry_error_none(es.drop_first(), i - 1);
    }
}

proof fn lemma_first_op_error_codes(ops: Seq<StorageOperation>)
    ensures
        first_op_error(ops) is None || first_op_error(ops) == Some(ServiceCode::InvalidParams)
            || first_op_error(ops) == Some(ServiceCode::QuotaExceeded),
    decreases ops.len(),
{
    if ops.len() > 0 {
        lemma_first_op_error_codes(ops.drop_first());
    }
}

proof fn lemma_first_entry_error_codes(es: Seq<StorageEntry>)
    ensures
        first_entry_error(es) is None || first_entry_error(es) == Some(ServiceCode::InvalidParams)
            || first_entry_error(es) == Some(ServiceCode::QuotaExceeded),
    decreases es.len(),
{
    if es.len() > 0 {
        lemma_first_entry_error_codes(es.drop_first());
    }
}

fn clone_entries(es: &Vec<StorageEntry>) -> (r: Vec<StorageEntry>)
    ensures
        r@ == es@,
{
    let mut r: Vec<StorageEntry> = Vec::new();
    let mut i: usize = 0;
    while i < es.len()
        invariant
            i <= es@.len(),
            r@ == es@.take(i as int),
        decreases es@.len() - i,
    {
        r.push(StorageEntry { key: es[i].key.clone(), value: es[i].value.clone() });
        i = i + 1;
        proof {
            assert(r@ =~= es@.take(i as int));
        }
    }
    proof {
        assert(es@.take(es@.len() as int) =~= es@);
    }
    r
}

fn conflict(revision: u64) -> (e: ServiceError)
    ensures
        e.code == ServiceCode::StorageConflict,
        e.revision == Some(revision),
{
    ServiceError {
        code: ServiceCode::StorageConflict,
        message: "storage changed in another window; read and retry".to_string(),
        revision: Some(revision),
    }
}

/// Applies the validated operations in order, collecting the changed keys.
fn apply_operations(entries: Vec<StorageEntry>, operations: &Vec<StorageOperation>) -> (r: (Vec<StorageEntry>, Vec<String>))
    requires
        unique_entries(entries@),
        forall|j: int| 0 <= j < entries@.len() ==> entry_error(#[trigger] entries@[j]) is None,
        first_op_error(operations@) is None,
    ensures
        unique_entries(r.0@),
        entry_map(r.0@) == apply_ops(entry_map(entries@), operations@),
        forall|j: int| 0 <= j < r.0@.len() ==> entry_error(#[trigger] r.0@[j]) is None,
        sorted_keys(string_views(r.1@)),
        string_views(r.1@).to_set() == changed_keys(entry_map(entries@), operations@),
        r.1@.len() <= operations@.len(),
        forall|k: Seq<char>| string_views(r.1@).to_set().contains(k) ==> spec_valid_key(k),
{
    let ghost m0 = entry_map(entries@);
    let ghost ops = operations@;
    let mut entries = entries;
    let mut keys: Vec<String> = Vec::new();
    let mut i: usize = 0;
    proof {
        assert(ops.take(0) =~= Seq::<StorageOperation>::empty());
        assert(string_views(keys@).to_set() =~= Set::<Seq<char>>::empty());
    }
    while i < operations.len()
        invariant
            i <= operations@.len(),
            operations@ == ops,
            first_op_error(ops) is None,
            unique_entries(entries@),
            entry_map(entries@) == apply_ops(m0, ops.take(i as int)),
            forall|j: int| 0 <= j < entries@.len() ==> entry_error(#[trigger] entries@[j]) is None,
            sorted_keys(string_views(keys@)),
            string_views(keys@).to_set() == changed_keys(m0, ops.take(i as int)),
            keys@.len() <= i,
            forall|k: Seq<char>| string_views(keys@).to_set().contains(k) ==> spec_valid_key(k),
        decreases operations@.len() - i,
    {
        proof {
            lemma_apply_step(m0, ops, i as int);
            lemma_first_op_error_none(ops, i as int);
        }
        let ghost before = entries@;
        match &operations[i] {
            StorageOperation::SetValue { key, value } => {
                let same = match find_entry(&entries, key.as_str()) {
                    Some(x) => {
                        proof {
                            lemma_entry_lookup(entries@, x as int);
                        }
                        str_equal(entries[x].value.as_str(), value.as_str())
                    },
                    None => false,
                };
                if !same {
                    set_entry(&mut entries, key.clone(), value.clone());
                    proof {
                        assert forall|j: int| 0 <= j < entries@.len() implies entry_error(#[trigger] entries@[j]) is None by {
                            if !before.contains(entries@[j]) {
                                assert(entries@[j].key@ == key@ && entries@[j].value@ == value@);
                            } else {
                                let x = choose|x: int| 0 <= x < before.len() && before[x] == entries@[j];
                                assert(entry_error(before[x]) is None);
                            }
                        }
                    }
                    insert_key(&mut keys, key.clone());
                } else {
                    proof {
                        assert(apply_ops(m0, ops.take(i as int)).insert(key@, value@) =~= apply_ops(m0, ops.take(i as int)));
                    }
                }
            },
            StorageOperation::Remove { key } => {
                let present = find_entry(&entries, key.as_str()).is_some();
                if present {
                    remove_entry(&mut entries, key.as_str());
                    proof {
                        assert forall|j: int| 0 <= j < entries@.len() implies entry_error(#[trigger] entries@[j]) is None by {
                            let x = choose|x: int| 0 <= x < before.len() && before[x] == entries@[j];
                            assert(entry_error(before[x]) is None);
                        }
                    }
                    insert_key(&mut keys, key.clone());
                } else {
                    proof {
                        assert(apply_ops(m0, ops.take(i as int)).remove(key@) =~= apply_ops(m0, ops.take(i as int)));
                    }
                }
            },
        }
        i = i + 1;
    }
    proof {
        assert(ops.take(ops.len() as int) =~= ops);
    }
    (entries, keys)
}

/// Appends a change record, retaining at most the last `MAX_CHANGES`.
fn append_change(changes: Vec<StorageChange>, revision: u64, change: StorageChange) -> (r: Vec<StorageChange>)
    requires
        changes@.len() <= MAX_CHANGES,
        forall|i: int| 0 <= i < changes@.len() - 1 ==> (#[trigger] changes@[i]).cursor + 1 == changes@[i + 1].cursor,
        changes@.len() > 0 ==> changes@.last().cursor == revision,
        forall|i: int| 0 <= i < changes@.len() ==> valid_change(#[trigger] changes@[i]),
        valid_change(change),
        change.cursor == revision + 1,
    ensures
        r@.len() == retained_changes(changes@).len() + 1,
        r@.len() <= MAX_CHANGES,
        r@.take(r@.len() - 1) == retained_changes(changes@),
        r@.last() == change,
        forall|i: int| 0 <= i < r@.len() - 1 ==> (#[trigger] r@[i]).cursor + 1 == r@[i + 1].cursor,
        forall|i: int| 0 <= i < r@.len() ==> valid_change(#[trigger] r@[i]),
{
    let ghost old_changes = changes@;
    let mut changes = changes;
    changes.push(change);
    if changes.len() > MAX_CHANGES {
        changes.remove(0);
    }
    proof {
        let nc = changes@;
        let kept = retained_changes(old_changes);
        assert(nc.take(nc.len() - 1) =~= kept);
        assert forall|j: int| 0 <= j < nc.len() - 1 implies (#[trigger] nc[j]).cursor + 1 == nc[j + 1].cursor by {
            if j + 1 < nc.len() - 1 {
                if old_changes.len() + 1 > MAX_CHANGES {
                    assert(nc[j] == old_changes[j + 1]);
                    assert(nc[j + 1] == old_changes[j + 2]);
                } else {
                    assert(nc[j] == old_changes[j]);
                    assert(nc[j + 1] == old_changes[j + 1]);
                }
            } else {
                assert(nc[j] == old_changes.last());
            }
        }
        assert forall|j: int| 0 <= j < nc.len() implies valid_change(#[trigger] nc[j]) by {
            if j < nc.len() - 1 {
                if old_changes.len() + 1 > MAX_CHANGES {
                    assert(nc[j] == old_changes[j + 1]);
                } else {
                    assert(nc[j] == old_changes[j]);
                }
            }
        }
    }
    changes
}

/// Applies a compare-and-swap transaction to the stored document. Nothing
/// changes unless the expected revision is the current one; a transaction
/// that changes nothing keeps the revision; otherwise the revision advances
/// by one and a change record names the changed keys.
pub fn transaction(d: StorageDocument, input: TransactionInput) -> (r: Result<StorageDocument, ServiceError>)
    requires
        unique_entries(d.entries@),
        unique_entries(d.config@),
        input.config matches Some(c) ==> unique_entries(c@),
    ensures
        match transaction_precheck(d, input) {
            Some(code) => r matches Err(e) && e.code == code && (code == ServiceCode::StorageConflict ==> e.revision == Some(d.revision)),
            None => {
                let m = apply_ops(entry_map(d.entries@), input.operations@);
                let ks = changed_keys(entry_map(d.entries@), input.operations@);
                let cfg = config_changes(d, input);
                if m.dom().len() > MAX_KEYS {
                    r matches Err(e) && e.code == ServiceCode::QuotaExceeded
                } else {
                    r matches Ok(n) && {
                        &&& spec_valid_document(n)
                        &&& unique_entries(n.entries@)
                        &&& unique_entries(n.config@)
                        &&& entry_map(n.entries@) == m
                        &&& entry_map(n.config@) == (if cfg { entry_map(input.config.unwrap()@) } else { entry_map(d.config@) })
                        &&& if !cfg && ks == Set::<Seq<char>>::empty() {
                            n.revision == d.revision && n.changes@ == d.changes@
                        } else {
                            &&& n.revision == d.revision + 1
                            &&& n.changes@.len() == retained_changes(d.changes@).len() + 1
                            &&& n.changes@.take(n.changes@.len() - 1) == retained_changes(d.changes@)
                            &&& n.changes@.last().cursor == n.revision
                            &&& n.changes@.last().config_changed == cfg
                            &&& string_views(n.changes@.last().keys@).to_set() == ks
                        }
                    }
                }
            },
        },
{
    if input.operations.len() > MAX_OPERATIONS || (input.config.is_none() && input.operations.len() == 0) {
        return Err(ServiceError::new(ServiceCode::InvalidParams, "storage transaction requires 1..128 changes"));
    }
    if let Some(c) = &input.config {
        match validate_object(c) {
            Ok(()) => {},
            Err(e) => {
                proof {
                    lemma_first_entry_error_codes(c@);
                }
                return Err(e);
            },
        }
    }
    match first_op_check(&input.operations) {
        Some(ServiceCode::InvalidParams) => return Err(ServiceError::new(
            ServiceCode::InvalidParams,
            "storage keys must be 1..128 ASCII letters, digits, dots, underscores or hyphens",
        )),
        Some(_) => {
            proof {
                lemma_first_op_error_codes(input.operations@);
            }
            return Err(ServiceError::new(ServiceCode::QuotaExceeded, "storage value exceeds its quota"));
        },
        None => {},
    }
    validate_document(&d)?;
    if d.revision != input.expected_revision {
        return Err(conflict(d.revision));
    }
    if d.revision == MAX_REVISION {
        return Err(ServiceError::new(ServiceCode::RevisionExhausted, "storage revision is exhausted"));
    }
    let ghost m0 = entry_map(d.entries@);
    let ghost ops = input.operations@;
    let TransactionInput { expected_revision, config, operations } = input;
    let StorageDocument { schema, revision, config: old_config, entries, changes } = d;
    let mut document_config = old_config;
    let mut config_changed = false;
    match config {
        Some(c) => {
            if !maps_equal(&c, &document_config) {
                document_config = c;
                config_changed = true;
            }
        },
        None => {},
    }
    proof {
        assert forall|j: int| 0 <= j < entries@.len() implies entry_error(#[trigger] entries@[j]) is None by {}
    }
    let (entries, keys) = apply_operations(entries, &operations);
    proof {
        lemma_entry_map_len(entries@);
    }
    if entries.len() > MAX_KEYS {
        return Err(ServiceError::new(ServiceCode::QuotaExceeded, "storage key count exceeds its quota"));
    }
    proof {
        if keys@.len() == 0 {
            assert(string_views(keys@).to_set() =~= Set::<Seq<char>>::empty());
        } else {
            assert(string_views(keys@).to_set().contains(string_views(keys@)[0]));
        }
    }
    if !config_changed && keys.len() == 0 {
        let n = StorageDocument { schema, revision, config: document_config, entries, changes };
        return Ok(n);
    }
    let next = revision + 1;
    proof {
        assert forall|j: int| 0 <= j < keys@.len() implies spec_valid_key(#[trigger] keys@[j]@) by {
            assert(string_views(keys@).to_set().contains(string_views(keys@)[j]));
        }
    }
    let changes = append_change(changes, revision, StorageChange { cursor: next, config_changed, keys });
    Ok(StorageDocument { schema, revision: next, config: document_config, entries, changes })
}

} // verus!

verus! {

/// One page of the change history.
#[derive(Debug, Clone)]
pub struct ChangesPage {
    pub cursor: u64,
    pub revision: u64,
    pub reset_required: bool,
    pub changes: Vec<StorageChange>,
}

/// The changes after `after`, in order, at most `limit` of them.
pub open spec fn changes_after(changes: Seq<StorageChange>, after: u64, limit: nat) -> Seq<StorageChange> {
    let later = changes.filter(|c: StorageChange| c.cursor > after);
    if later.len() > limit {
        later.take(limit as int)
    } else {
        later
    }
}

/// The first cursor still in the history.
pub open spec fn earliest_cursor(d: StorageDocument) -> int {
    if d.changes@.len() == 0 {
        d.revision + 1
    } else {
        d.changes@[0].cursor as int
    }
}

/// Two change records with the same cursor, flag and keys.
pub open spec fn same_change(a: StorageChange, b: StorageChange) -> bool {
    a.cursor == b.cursor && a.config_changed == b.config_changed && a.keys@ == b.keys@
}

/// Two histories that agree record by record.
pub open spec fn same_changes(a: Seq<StorageChange>, b: Seq<StorageChange>) -> bool {
    a.len() == b.len() && forall|j: int| 0 <= j < a.len() ==> same_change(#[trigger] a[j], b[j])
}

fn clone_change(c: &StorageChange) -> (r: StorageChange)
    ensures
        same_change(r, *c),
{
    let mut keys: Vec<String> = Vec::new();
    let mut i: usize = 0;
    while i < c.keys.len()
        invariant
            i <= c.keys@.len(),
            keys@ == c.keys@.take(i as int),
        decreases c.keys@.len() - i,
    {
        keys.push(c.keys[i].clone());
        i = i + 1;
        proof {
            assert(keys@ =~= c.keys@.take(i as int));
        }
    }
    proof {
        assert(keys@ =~= c.keys@);
    }
    StorageChange { cursor: c.cursor, config_changed: c.config_changed, keys }
}

/// Refuses to write a service document whose serialised form takes more than
/// `STATE_BYTES` bytes; the document on disk is then left as it was.
pub fn check_state_size(bytes: u64) -> (r: Result<(), ServiceError>)
    ensures
        r is Ok <==> bytes <= STATE_BYTES,
        r matches Err(e) ==> e.code == ServiceCode::QuotaExceeded && e.message@ == "plugin service state exceeds its quota"@,
{
    if bytes > STATE_BYTES {
        return Err(ServiceError::new(ServiceCode::QuotaExceeded, "plugin service state exceeds its quota"));
    }
    Ok(())
}

/// Reads one page of changes after a cursor. When the history no longer
/// reaches back to the cursor, a reset (with no changes) is required.
pub fn changes(d: &StorageDocument, after_cursor: u64, limit: usize) -> (r: Result<ChangesPage, ServiceError>)
    ensures
        limit == 0 || limit > MAX_CHANGE_PAGE ==> (r matches Err(e) && e.code == ServiceCode::InvalidParams),
        !(limit == 0 || limit > MAX_CHANGE_PAGE) && !spec_valid_document(*d) ==> (r matches Err(e) && e.code == ServiceCode::StorageCorrupt),
        !(limit == 0 || limit > MAX_CHANGE_PAGE) && spec_valid_document(*d) ==> {
            if after_cursor > d.revision {
                r matches Err(e) && e.code == ServiceCode::InvalidCursor
            } else if after_cursor + 1 < earliest_cursor(*d) {
                r matches Ok(p) && p.reset_required && p.cursor == d.revision && p.revision == d.revision && p.changes@.len() == 0
            } else {
                r matches Ok(p) && {
                    &&& !p.reset_required
                    &&& p.revision == d.revision
                    &&& same_changes(p.changes@, changes_after(d.changes@, after_cursor, limit as nat))
                    &&& p.cursor == (if p.changes@.len() == 0 { after_cursor } else { p.changes@.last().cursor })
                }
            }
        },
{
    if limit == 0 || limit > MAX_CHANGE_PAGE {
        return Err(ServiceError::new(ServiceCode::InvalidParams, "change limit must be between 1 and 100"));
    }
    validate_document(d)?;
    if after_cursor > d.revision {
        return Err(ServiceError::new(ServiceCode::InvalidCursor, "change cursor is newer than current storage"));
    }
    let earliest: u64 = if d.changes.len() == 0 {
        d.revision + 1
    } else {
        d.changes[0].cursor
    };
    if after_cursor + 1 < earliest {
        return Ok(ChangesPage { cursor: d.revision, revision: d.revision, reset_required: true, changes: Vec::new() });
    }
    let mut out: Vec<StorageChange> = Vec::new();
    let mut i: usize = 0;
    let ghost pred = |c: StorageChange| c.cursor > after_cursor;
    proof {
        assert(d.changes@.take(0) =~= Seq::<StorageChange>::empty());
        reveal_with_fuel(Seq::<StorageChange>::filter, 1);
    }
    while i < d.changes.len() && out.len() < limit
        invariant
            i <= d.changes@.len(),
            out@.len() <= limit,
            same_changes(out@, d.changes@.take(i as int).filter(pred)),
            pred == (|c: StorageChange| c.cursor > after_cursor),
        decreases d.changes@.len() - i,
    {
        proof {
            assert(d.changes@.take(i as int + 1).drop_last() =~= d.changes@.take(i as int));
            reveal_with_fuel(Seq::<StorageChange>::filter, 1);
        }
        let ghost before = d.changes@.take(i as int).filter(pred);
        if d.changes[i].cursor > after_cursor {
            let c = clone_change(&d.changes[i]);
            out.push(c);
            proof {
                assert(d.changes@.take(i as int + 1).filter(pred) == before.push(d.changes@[i as int]));
                assert forall|j: int| 0 <= j < out@.len() implies same_change(#[trigger] out@[j], d.changes@.take(i as int + 1).filter(pred)[j]) by {
                    if j < out@.len() - 1 {
                        assert(same_change(out@[j], before[j]));
                    }
                }
            }
        } else {
            proof {
                assert(d.changes@.take(i as int + 1).filter(pred) == before);
            }
        }
        i = i + 1;
    }
    proof {
        lemma_filter_prefix_limit(d.changes@, pred, i as int, limit as nat);
        assert(d.changes@.filter(pred) == d.changes@.filter(|c: StorageChange| c.cursor > after_cursor));
    }
    let cursor = if out.len() == 0 {
        after_cursor
    } else {
        out[out.len() - 1].cursor
    };
    Ok(ChangesPage { cursor, revision: d.revision, reset_required: false, changes: out })
}

proof fn lemma_filter_take_len(s: Seq<StorageChange>, pred: spec_fn(StorageChange) -> bool, k: int)
    requires
        0 <= k <= s.len(),
    ensures
        s.take(k).filter(pred).len() <= s.filter(pred).len(),
        s.filter(pred).take(s.take(k).filter(pred).len() as int) == s.take(k).filter(pred),
    decreases s.len() - k,
{
    reveal_with_fuel(Seq::<StorageChange>::filter, 1);
    if k < s.len() {
        lemma_filter_take_len(s, pred, k + 1);
        assert(s.take(k + 1).drop_last() =~= s.take(k));
        let a = s.take(k).filter(pred);
        let b = s.take(k + 1).filter(pred);
        if pred(s[k]) {
            assert(b == a.push(s[k]));
            assert(s.filter(pred).take(b.len() as int).take(a.len() as int) =~= s.filter(pred).take(a.len() as int));
            assert(b.take(a.len() as int) =~= a);
        }
    } else {
        assert(s.take(k) =~= s);
        assert(s.filter(pred).take(s.filter(pred).len() as int) =~= s.filter(pred));
    }
}

proof fn lemma_filter_prefix_limit(s: Seq<StorageChange>, pred: spec_fn(StorageChange) -> bool, i: int, limit: nat)
    requires
        0 <= i <= s.len(),
        s.take(i).filter(pred).len() <= limit,
        i == s.len() || s.take(i).filter(pred).len() == limit,
    ensures
        s.take(i).filter(pred) == (if s.filter(pred).len() > limit { s.filter(pred).take(limit as int) } else { s.filter(pred) }),
{
    lemma_filter_take_len(s, pred, i);
    if i == s.len() {
        assert(s.take(i) =~= s);
    }
}

/// A transaction is refused with a conflict exactly when, after its request
/// and the stored document validate, the expected revision is stale.
pub proof fn law_stale_revision_is_refused(d: StorageDocument, input: TransactionInput)
    requires
        !(input.operations@.len() > MAX_OPERATIONS || (input.config is None && input.operations@.len() == 0)),
        !(input.config matches Some(c) && object_error(c@) is Some),
        first_op_error(input.operations@) is None,
        spec_valid_document(d),
    ensures
        (transaction_precheck(d, input) == Some(ServiceCode::StorageConflict)) <==> (d.revision != input.expected_revision),
{
}

/// After a transaction, a key written by a set that no later operation
/// touches holds exactly the value written.
pub proof fn law_last_write_wins(m: Map<Seq<char>, Seq<char>>, ops: Seq<StorageOperation>, i: int, key: Seq<char>, value: Seq<char>)
    requires
        0 <= i < ops.len(),
        op_key(ops[i]) == key,
        (ops[i] matches StorageOperation::SetValue { value: v, .. } && v@ == value),
        forall|j: int| i < j < ops.len() ==> op_key(#[trigger] ops[j]) != key,
    ensures
        apply_ops(m, ops).contains_key(key),
        apply_ops(m, ops)[key] == value,
    decreases ops.len(),
{
    if i < ops.len() - 1 {
        assert(ops.drop_last()[i] == ops[i]);
        law_last_write_wins(m, ops.drop_last(), i, key, value);
    } else {
        assert(ops.drop_last().len() == i);
    }
}

/// A removal that no later operation touches leaves the key absent.
pub proof fn law_removed_key_is_absent(m: Map<Seq<char>, Seq<char>>, ops: Seq<StorageOperation>, i: int, key: Seq<char>)
    requires
        0 <= i < ops.len(),
        (ops[i] matches StorageOperation::Remove { key: k } && k@ == key),
        forall|j: int| i < j < ops.len() ==> op_key(#[trigger] ops[j]) != key,
    ensures
        !apply_ops(m, ops).contains_key(key),
    decreases ops.len(),
{
    if i < ops.len() - 1 {
        assert(ops.drop_last()[i] == ops[i]);
        law_removed_key_is_absent(m, ops.drop_last(), i, key);
    }
}

/// Keys no operation touches keep their values.
pub proof fn law_untouched_keys_are_kept(m: Map<Seq<char>, Seq<char>>, ops: Seq<StorageOperation>, key: Seq<char>)
    requires
        forall|j: int| 0 <= j < ops.len() ==> op_key(#[trigger] ops[j]) != key,
    ensures
        apply_ops(m, ops).contains_key(key) == m.contains_key(key),
        m.contains_key(key) ==> apply_ops(m, ops)[key] == m[key],
    decreases ops.len(),
{
    if ops.len() > 0 {
        assert forall|j: int| 0 <= j < ops.drop_last().len() implies op_key(#[trigger] ops.drop_last()[j]) != key by {
            assert(ops.drop_last()[j] == ops[j]);
        }
        law_untouched_keys_are_kept(m, ops.drop_last(), key);
        assert(op_key(ops[ops.len() - 1]) != key);
    }
}


/// A storage key is valid exactly when it has 1 to 128 characters, each an
/// ASCII letter or digit, '.', '_' or '-'; a write of such a key with a
/// value of at most 128 KiB passes the operation checks.
pub proof fn law_storage_keys_are_short_ascii_names(k: Seq<char>, key: String, value: String)
    ensures
        spec_valid_key(k) <==> (1 <= k.len() <= 128 && forall|i: int|
            0 <= i < k.len() ==> ('0' <= #[trigger] k[i] <= '9' || 'a' <= k[i] <= 'z' || 'A' <= k[i] <= 'Z' || k[i] == '.'
                || k[i] == '_' || k[i] == '-')),
        spec_valid_key(key@) && utf8_len(value@) <= 131072 ==> op_error(StorageOperation::SetValue { key, value }) is None,
{
}

} // verus!
