//! The storage key layout: every row of the store lives under a string
//! key composed from the collection name, the row identifier and the
//! use-case label, joined by `:`. Collection and use-case names must not
//! contain `:`; the layout functions reject them at the boundary.

use vstd::prelude::*;

verus! {

/// A name fit for a key: it contains no separator.
pub open spec fn spec_valid_name(s: Seq<char>) -> bool {
    forall|i: int| 0 <= i < s.len() ==> s[i] != ':'
}

/// The primary key of a row: `{collection}:{id}`.
pub open spec fn spec_data_key(collection: Seq<char>, id: Seq<char>) -> Seq<char> {
    collection + seq![':'] + id
}

/// The access-control row of a row: `{collection}:{id}:acl`.
pub open spec fn spec_acl_key(collection: Seq<char>, id: Seq<char>) -> Seq<char> {
    spec_data_key(collection, id) + ":acl"@
}

/// The nonce row of a row: `{collection}:{id}:nonce`.
pub open spec fn spec_nonce_key(collection: Seq<char>, id: Seq<char>) -> Seq<char> {
    spec_data_key(collection, id) + ":nonce"@
}

/// The use-case index row: `{collection}:{usecase}:usecase`.
pub open spec fn spec_usecase_key(collection: Seq<char>, usecase: Seq<char>) -> Seq<char> {
    collection + seq![':'] + usecase + ":usecase"@
}

/// The collection index row: `{collection}:keys`.
pub open spec fn spec_keys_key(collection: Seq<char>) -> Seq<char> {
    collection + ":keys"@
}

/// Tests that a name is fit for a key.
pub fn is_valid_name(s: &String) -> (r: bool)
    ensures
        r == spec_valid_name(s@),
{
    let n = vstd::string::StrSliceExecFns::unicode_len(s.as_str());
    let mut i: usize = 0;
    while i < n
        invariant
            n == s@.len(),
            i <= n,
            forall|k: int| 0 <= k < i ==> s@[k] != ':',
        decreases n - i,
    {
        if vstd::string::StrSliceExecFns::get_char(s.as_str(), i) == ':' {
            return false;
        }
        i = i + 1;
    }
    true
}

/// Builds `{collection}:{id}`.
pub fn data_key(collection: &String, id: &String) -> (r: String)
    ensures
        r@ == spec_data_key(collection@, id@),
{
    let mut r = String::new();
    vstd::string::StringExecFns::append(&mut r, collection.as_str());
    vstd::string::StringExecFns::append(&mut r, ":");
    vstd::string::StringExecFns::append(&mut r, id.as_str());
    proof {
        reveal_strlit(":");
        assert(r@ =~= spec_data_key(collection@, id@));
    }
    r
}

/// Builds `{collection}:{id}:acl`.
pub fn acl_key(collection: &String, id: &String) -> (r: String)
    ensures
        r@ == spec_acl_key(collection@, id@),
{
    let mut r = data_key(collection, id);
    vstd::string::StringExecFns::append(&mut r, ":acl");
    r
}

/// Builds `{collection}:{id}:nonce`.
pub fn nonce_key(collection: &String, id: &String) -> (r: String)
    ensures
        r@ == spec_nonce_key(collection@, id@),
{
    let mut r = data_key(collection, id);
    vstd::string::StringExecFns::append(&mut r, ":nonce");
    r
}

/// Builds `{collection}:{usecase}:usecase`.
pub fn usecase_key(collection: &String, usecase: &String) -> (r: String)
    ensures
        r@ == spec_usecase_key(collection@, usecase@),
{
    let mut r = String::new();
    vstd::string::StringExecFns::append(&mut r, collection.as_str());
    vstd::string::StringExecFns::append(&mut r, ":");
    vstd::string::StringExecFns::append(&mut r, usecase.as_str());
    vstd::string::StringExecFns::append(&mut r, ":usecase");
    proof {
        reveal_strlit(":");
        assert(r@ =~= spec_usecase_key(collection@, usecase@));
    }
    r
}

/// Builds `{collection}:keys`.
pub fn keys_key(collection: &String) -> (r: String)
    ensures
        r@ == spec_keys_key(collection@),
{
    let mut r = String::new();
    vstd::string::StringExecFns::append(&mut r, collection.as_str());
    vstd::string::StringExecFns::append(&mut r, ":keys");
    proof {
        assert(r@ =~= spec_keys_key(collection@));
    }
    r
}

/// Two data keys with the same collection agree exactly when the
/// identifiers agree.
pub proof fn lemma_data_key_injective(c: Seq<char>, id1: Seq<char>, id2: Seq<char>)
    requires
        spec_data_key(c, id1) == spec_data_key(c, id2),
    ensures
        id1 == id2,
{
    let k1 = spec_data_key(c, id1);
    let k2 = spec_data_key(c, id2);
    assert(k1.len() == c.len() + 1 + id1.len());
    assert(k2.len() == c.len() + 1 + id2.len());
    assert(id1.len() == id2.len());
    assert forall|i: int| 0 <= i < id1.len() implies id1[i] == id2[i] by {
        assert(k1[c.len() + 1 + i] == id1[i]);
        assert(k2[c.len() + 1 + i] == id2[i]);
    }
    assert(id1 =~= id2);
}

/// How many separators a sequence holds.
pub open spec fn colon_count(s: Seq<char>) -> nat
    decreases s.len(),
{
    if s.len() == 0 {
        0
    } else {
        colon_count(s.drop_last()) + if s.last() == ':' {
            1nat
        } else {
            0nat
        }
    }
}

/// Counting separators distributes over concatenation.
pub proof fn lemma_colon_count_add(a: Seq<char>, b: Seq<char>)
    ensures
        colon_count(a + b) == colon_count(a) + colon_count(b),
    decreases b.len(),
{
    if b.len() == 0 {
        assert(a + b =~= a);
    } else {
        assert((a + b).drop_last() =~= a + b.drop_last());
        lemma_colon_count_add(a, b.drop_last());
        assert((a + b).last() == b.last());
    }
}

/// A valid name holds no separator.
pub proof fn lemma_valid_name_count(s: Seq<char>)
    requires
        spec_valid_name(s),
    ensures
        colon_count(s) == 0,
    decreases s.len(),
{
    if s.len() > 0 {
        assert(spec_valid_name(s.drop_last()));
        lemma_valid_name_count(s.drop_last());
    }
}

/// The separator counts of every key form, for valid names.
pub proof fn lemma_key_counts(c: Seq<char>, x: Seq<char>)
    requires
        spec_valid_name(c),
        spec_valid_name(x),
    ensures
        colon_count(spec_data_key(c, x)) == 1,
        colon_count(spec_acl_key(c, x)) == 2,
        colon_count(spec_nonce_key(c, x)) == 2,
        colon_count(spec_usecase_key(c, x)) == 2,
        colon_count(spec_keys_key(c)) == 1,
{
    reveal_strlit(":acl");
    reveal_strlit(":nonce");
    reveal_strlit(":usecase");
    reveal_strlit(":keys");
    reveal_with_fuel(colon_count, 10);
    lemma_valid_name_count(c);
    lemma_valid_name_count(x);
    lemma_colon_count_add(c, seq![':']);
    lemma_colon_count_add(c + seq![':'], x);
    assert(colon_count(seq![':']) == 1);
    assert(colon_count(spec_data_key(c, x)) == 1);
    lemma_colon_count_add(spec_data_key(c, x), ":acl"@);
    assert(colon_count(":acl"@) == 1) by {
        assert(":acl"@ =~= seq![':', 'a', 'c', 'l']);
    }
    lemma_colon_count_add(spec_data_key(c, x), ":nonce"@);
    assert(colon_count(":nonce"@) == 1) by {
        assert(":nonce"@ =~= seq![':', 'n', 'o', 'n', 'c', 'e']);
    }
    lemma_colon_count_add(spec_data_key(c, x), ":usecase"@);
    assert(colon_count(":usecase"@) == 1) by {
        assert(":usecase"@ =~= seq![':', 'u', 's', 'e', 'c', 'a', 's', 'e']);
    }
    assert(spec_usecase_key(c, x) =~= spec_data_key(c, x) + ":usecase"@);
    lemma_colon_count_add(c, ":keys"@);
    assert(colon_count(":keys"@) == 1) by {
        assert(":keys"@ =~= seq![':', 'k', 'e', 'y', 's']);
    }
}

/// A data key built from valid names never collides with an ancillary
/// key built from valid names: their separator counts differ.
pub proof fn lemma_data_key_distinct(c: Seq<char>, id: Seq<char>, c2: Seq<char>, x: Seq<char>)
    requires
        spec_valid_name(c),
        spec_valid_name(id),
        spec_valid_name(c2),
        spec_valid_name(x),
    ensures
        spec_data_key(c, id) != spec_acl_key(c2, x),
        spec_data_key(c, id) != spec_nonce_key(c2, x),
        spec_data_key(c, id) != spec_usecase_key(c2, x),
{
    lemma_key_counts(c, id);
    lemma_key_counts(c2, x);
}

/// Use-case index keys built from valid names are pairwise distinct in
/// both parts.
pub proof fn lemma_usecase_key_injective(c1: Seq<char>, u1: Seq<char>, c2: Seq<char>, u2: Seq<char>)
    requires
        spec_valid_name(c1),
        spec_valid_name(u1),
        spec_valid_name(c2),
        spec_valid_name(u2),
        spec_usecase_key(c1, u1) == spec_usecase_key(c2, u2),
    ensures
        c1 == c2 && u1 == u2,
{
    reveal_strlit(":usecase");
    let k1 = spec_usecase_key(c1, u1);
    let k2 = spec_usecase_key(c2, u2);
    // the collection is everything before the first separator
    assert(k1[c1.len() as int] == ':');
    assert(k2[c2.len() as int] == ':');
    if c1.len() < c2.len() {
        assert(k2[c1.len() as int] == ':');
        if c1.len() < c2.len() {
            assert(c2[c1.len() as int] == ':');
            assert(false);
        }
    } else if c2.len() < c1.len() {
        assert(k1[c2.len() as int] == ':');
        assert(c1[c2.len() as int] == ':');
        assert(false);
    }
    assert(c1.len() == c2.len());
    assert forall|i: int| 0 <= i < c1.len() implies c1[i] == c2[i] by {
        assert(k1[i] == c1[i]);
        assert(k2[i] == c2[i]);
    }
    assert(c1 =~= c2);
    assert(k1.len() == c1.len() + 1 + u1.len() + 8);
    assert(k2.len() == c2.len() + 1 + u2.len() + 8);
    assert(u1.len() == u2.len());
    assert forall|i: int| 0 <= i < u1.len() implies u1[i] == u2[i] by {
        assert(k1[c1.len() + 1 + i] == u1[i]);
        assert(k2[c2.len() + 1 + i] == u2[i]);
    }
    assert(u1 =~= u2);
}

/// Compares two byte slices.
pub fn bytes_eq(a: &[u8], b: &[u8]) -> (r: bool)
    ensures
        r == (a@ == b@),
{
    if a.len() != b.len() {
        proof {
            assert(a@ != b@);
        }
        return false;
    }
    let mut i: usize = 0;
    while i < a.len()
        invariant
            a@.len() == b@.len(),
            i <= a@.len(),
            forall|j: int| 0 <= j < i ==> a@[j] == b@[j],
        decreases a@.len() - i,
    {
        if *vstd::slice::slice_index_get(a, i) != *vstd::slice::slice_index_get(b, i) {
            proof {
                assert(a@[i as int] != b@[i as int]);
            }
            return false;
        }
        i = i + 1;
    }
    proof {
        assert(a@ =~= b@);
    }
    true
}

/// Compares two strings by their bytes; equal bytes mean equal strings
/// because a character sequence has one UTF-8 form.
pub fn string_eq(a: &String, b: &String) -> (r: bool)
    ensures
        r == (a@ == b@),
{
    let r = bytes_eq(a.as_str().as_bytes(), b.as_str().as_bytes());
    proof {
        broadcast use vstd::utf8::encode_utf8_decode_utf8;

        if vstd::utf8::encode_utf8(a@) == vstd::utf8::encode_utf8(b@) {
            assert(vstd::utf8::decode_utf8(vstd::utf8::encode_utf8(a@)) == a@);
            assert(vstd::utf8::decode_utf8(vstd::utf8::encode_utf8(b@)) == b@);
        }
    }
    r
}

} // verus!

