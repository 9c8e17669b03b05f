//! The order in which participant keys are walked.
//!
//! Keys are compared as `String` itself compares: byte by byte over the
//! UTF-8 encoding, a proper prefix coming first. The order depends on the
//! keys alone, so two stores with the same content are walked alike.

use vstd::prelude::*;
use vstd::utf8::*;

verus! {

/// `a` and `b` agree on their first `k` bytes, and at `k` either `a` ends
/// while `b` goes on, or `a` holds the smaller byte.
pub open spec fn parts_at(a: Seq<u8>, b: Seq<u8>, k: int) -> bool {
    &&& 0 <= k <= a.len()
    &&& k < b.len()
    &&& forall|j: int| 0 <= j < k ==> a[j] == b[j]
    &&& k < a.len() ==> a[k] < b[k]
}

/// Strict lexicographic order on byte strings.
pub open spec fn bytes_before(a: Seq<u8>, b: Seq<u8>) -> bool {
    exists|k: int| parts_at(a, b, k)
}

/// Strict order on keys: lexicographic over the UTF-8 bytes.
pub open spec fn key_before(a: Seq<char>, b: Seq<char>) -> bool {
    bytes_before(encode_utf8(a), encode_utf8(b))
}

/// How one key stands to another.
#[derive(Clone, Copy, Debug, PartialEq, Eq, Structural)]
pub enum KeyOrder {
    Before,
    Same,
    After,
}

/// No byte string comes before itself, and of two at most one comes first.
pub proof fn lemma_bytes_before_asymmetric(a: Seq<u8>, b: Seq<u8>)
    requires
        bytes_before(a, b),
    ensures
        !bytes_before(b, a),
        a != b,
{
    let k: int = choose|k: int| parts_at(a, b, k);
    if bytes_before(b, a) {
        let m: int = choose|m: int| parts_at(b, a, m);
        if m < k {
            assert(a[m] == b[m]);
        } else if k < m {
            assert(b[k] == a[k]);
        }
        assert(false);
    }
}

/// The order on byte strings is transitive.
pub proof fn lemma_bytes_before_transitive(a: Seq<u8>, b: Seq<u8>, c: Seq<u8>)
    requires
        bytes_before(a, b),
        bytes_before(b, c),
    ensures
        bytes_before(a, c),
{
    let k: int = choose|k: int| parts_at(a, b, k);
    let m: int = choose|m: int| parts_at(b, c, m);
    let n: int = if k <= m { k } else { m };
    assert forall|j: int| 0 <= j < n implies a[j] == c[j] by {
        assert(a[j] == b[j]);
        assert(b[j] == c[j]);
    }
    if k < m {
        assert(b[k] == c[k]);
    }
    assert(parts_at(a, c, n));
}

/// Of two different byte strings one comes before the other.
pub proof fn lemma_bytes_before_total(a: Seq<u8>, b: Seq<u8>)
    ensures
        a == b || bytes_before(a, b) || bytes_before(b, a),
{
    if a != b {
        if forall|j: int| 0 <= j < a.len() && j < b.len() ==> a[j] == b[j] {
            if a.len() == b.len() {
                assert(a =~= b);
            } else if a.len() < b.len() {
                assert(parts_at(a, b, a.len() as int));
            } else {
                assert(parts_at(b, a, b.len() as int));
            }
        } else {
            lemma_first_difference(a, b, 0);
        }
    }
}

proof fn lemma_first_difference(a: Seq<u8>, b: Seq<u8>, from: int)
    requires
        0 <= from <= a.len(),
        from <= b.len(),
        forall|j: int| 0 <= j < from ==> a[j] == b[j],
        exists|j: int| from <= j < a.len() && j < b.len() && a[j] != b[j],
    ensures
        bytes_before(a, b) || bytes_before(b, a),
    decreases a.len() - from,
{
    if from < a.len() && from < b.len() && a[from] != b[from] {
        if a[from] < b[from] {
            assert(parts_at(a, b, from));
        } else {
            assert(parts_at(b, a, from));
        }
    } else {
        lemma_first_difference(a, b, from + 1);
    }
}

/// Keys with the same encoding are the same key.
pub proof fn lemma_encoding_tells_keys_apart(a: Seq<char>, b: Seq<char>)
    requires
        encode_utf8(a) == encode_utf8(b),
    ensures
        a == b,
{
    encode_utf8_decode_utf8(a);
    encode_utf8_decode_utf8(b);
}

/// No key comes before itself, and of two keys at most one comes first.
pub proof fn lemma_key_before_asymmetric(a: Seq<char>, b: Seq<char>)
    requires
        key_before(a, b),
    ensures
        !key_before(b, a),
        a != b,
{
    lemma_bytes_before_asymmetric(encode_utf8(a), encode_utf8(b));
}

/// The key order is transitive.
pub proof fn lemma_key_before_transitive(a: Seq<char>, b: Seq<char>, c: Seq<char>)
    requires
        key_before(a, b),
        key_before(b, c),
    ensures
        key_before(a, c),
{
    lemma_bytes_before_transitive(encode_utf8(a), encode_utf8(b), encode_utf8(c));
}

/// Of two different keys one comes before the other.
pub proof fn lemma_key_before_total(a: Seq<char>, b: Seq<char>)
    ensures
        a == b || key_before(a, b) || key_before(b, a),
{
    lemma_bytes_before_total(encode_utf8(a), encode_utf8(b));
    if encode_utf8(a) == encode_utf8(b) {
        lemma_encoding_tells_keys_apart(a, b);
    }
}

/// `a` and `b` agree on their first `k` characters, and at `k` either `a`
/// ends while `b` goes on, or `a` holds the character with the smaller code.
pub open spec fn chars_part_at(a: Seq<char>, b: Seq<char>, k: int) -> bool {
    &&& 0 <= k <= a.len()
    &&& k < b.len()
    &&& forall|j: int| 0 <= j < k ==> a[j] == b[j]
    &&& k < a.len() ==> (a[k] as u32) < (b[k] as u32)
}

/// Between keys of ASCII characters, as account addresses are, the key
/// order is the lexicographic order of the characters.
pub proof fn lemma_key_before_ascii(a: Seq<char>, b: Seq<char>)
    requires
        is_ascii_chars(a),
        is_ascii_chars(b),
    ensures
        key_before(a, b) <==> exists|k: int| chars_part_at(a, b, k),
{
    let x = encode_utf8(a);
    let y = encode_utf8(b);
    is_ascii_chars_encode_utf8(a);
    is_ascii_chars_encode_utf8(b);
    assert forall|j: int| 0 <= j < a.len() && j < b.len() implies (a[j] == b[j] <==> x[j] == y[j])
        && ((a[j] as u32) < (b[j] as u32) <==> x[j] < y[j]) by {
        assert(a[j] as u8 == x[j]);
        assert(b[j] as u8 == y[j]);
        assert('\0' <= a[j] <= '\u{7f}');
        assert('\0' <= b[j] <= '\u{7f}');
    }
    if key_before(a, b) {
        let k: int = choose|k: int| parts_at(x, y, k);
        assert(chars_part_at(a, b, k));
    }
    if exists|k: int| chars_part_at(a, b, k) {
        let k: int = choose|k: int| chars_part_at(a, b, k);
        assert(parts_at(x, y, k));
    }
}

/// Compares two keys in the key order.
pub fn key_order(a: &String, b: &String) -> (r: KeyOrder)
    ensures
        r == KeyOrder::Before <==> key_before(a@, b@),
        r == KeyOrder::Same <==> a@ == b@,
        r == KeyOrder::After <==> key_before(b@, a@),
{
    let x = a.as_str().as_bytes();
    let y = b.as_str().as_bytes();
    let mut i: usize = 0;
    while i < x.len() && i < y.len()
        invariant
            i <= x.len(),
            i <= y.len(),
            x@ == encode_utf8(a@),
            y@ == encode_utf8(b@),
            forall|j: int| 0 <= j < i ==> x@[j] == y@[j],
        decreases x.len() - i,
    {
        if x[i] < y[i] {
            proof {
                assert(parts_at(x@, y@, i as int));
                lemma_bytes_before_asymmetric(x@, y@);
            }
            return KeyOrder::Before;
        }
        if x[i] > y[i] {
            proof {
                assert(parts_at(y@, x@, i as int));
                lemma_bytes_before_asymmetric(y@, x@);
            }
            return KeyOrder::After;
        }
        i += 1;
    }
    if x.len() < y.len() {
        proof {
            assert(parts_at(x@, y@, i as int));
            lemma_bytes_before_asymmetric(x@, y@);
        }
        KeyOrder::Before
    } else if x.len() > y.len() {
        proof {
            assert(parts_at(y@, x@, i as int));
            lemma_bytes_before_asymmetric(y@, x@);
        }
        KeyOrder::After
    } else {
        proof {
            assert(x@ =~= y@);
            lemma_encoding_tells_keys_apart(a@, b@);
            if key_before(a@, b@) {
                lemma_key_before_asymmetric(a@, b@);
            }
        }
        KeyOrder::Same
    }
}

} // verus!
