//! The durable keyspace: one string prefix per kind of entry.
//!
//! `object-index` holds the next id to allocate, `object-exists-{id}` is the
//! existence marker, and `object-field-{id}-{field}` holds one field.  The
//! lemmas here separate the three families, so that the store's effects on one
//! kind of key are known not to touch the others.

use vstd::prelude::*;
use vstd::string::StringExecFns;
use crate::numbers::dec_digits;
use crate::numbers::is_digit;
use crate::numbers::lemma_dec_digits_valid;
use crate::numbers::lemma_dec_digits_injective;
use crate::numbers::format_dec;
use crate::text::push_char;

verus! {

pub open spec fn counter_key() -> Seq<char> {
    seq!['o', 'b', 'j', 'e', 'c', 't', '-', 'i', 'n', 'd', 'e', 'x']
}

pub open spec fn marker_prefix() -> Seq<char> {
    seq!['o', 'b', 'j', 'e', 'c', 't', '-', 'e', 'x', 'i', 's', 't', 's', '-']
}

pub open spec fn field_root() -> Seq<char> {
    seq!['o', 'b', 'j', 'e', 'c', 't', '-', 'f', 'i', 'e', 'l', 'd', '-']
}

pub open spec fn marker_key(id: nat) -> Seq<char> {
    marker_prefix() + dec_digits(id)
}

pub open spec fn field_prefix(id: nat) -> Seq<char> {
    field_root() + dec_digits(id) + seq!['-']
}

pub open spec fn field_key(id: nat, f: Seq<char>) -> Seq<char> {
    field_prefix(id) + f
}

pub open spec fn ascii_chars(s: Seq<char>) -> bool {
    forall|i: int| 0 <= i < s.len() ==> (#[trigger] s[i] as u32) < 128
}

/// Equal concatenations with the same front have the same tail.
pub proof fn lemma_strip_prefix(p: Seq<char>, x: Seq<char>, y: Seq<char>)
    requires
        p + x == p + y,
    ensures
        x == y,
{
    assert(x =~= (p + x).skip(p.len() as int));
    assert(y =~= (p + y).skip(p.len() as int));
}

pub proof fn lemma_marker_key_injective(a: nat, b: nat)
    ensures
        marker_key(a) == marker_key(b) ==> a == b,
{
    if marker_key(a) == marker_key(b) {
        lemma_strip_prefix(marker_prefix(), dec_digits(a), dec_digits(b));
        lemma_dec_digits_injective(a, b);
    }
}

/// The three families of keys never collide: the counter key is neither a
/// marker key nor under a field prefix, and markers are not under field
/// prefixes.
pub proof fn lemma_key_families(id: nat, other: nat)
    ensures
        counter_key() != marker_key(other),
        !field_prefix(id).is_prefix_of(counter_key()),
        !field_prefix(id).is_prefix_of(marker_key(other)),
{
    assert(marker_key(other).len() >= 15);
    assert(field_prefix(id).len() >= 15);
    if field_prefix(id).is_prefix_of(marker_key(other)) {
        assert(field_prefix(id)[7] == marker_key(other)[7]);
        assert(field_prefix(id)[7] == 'f');
        assert(marker_key(other)[7] == 'e');
    }
}

/// A field key determines its object: equal prefixes name equal ids.
pub proof fn lemma_field_prefix_injective(a: nat, b: nat, g: Seq<char>)
    requires
        field_prefix(a).is_prefix_of(field_key(b, g)),
    ensures
        a == b,
{
    let da = dec_digits(a);
    let db = dec_digits(b);
    lemma_dec_digits_valid(a);
    lemma_dec_digits_valid(b);
    let pa = field_prefix(a);
    let kb = field_key(b, g);
    assert(pa.len() <= kb.len());
    assert(forall|i: int| 0 <= i < pa.len() ==> pa[i] == kb[i]);
    if da.len() < db.len() {
        let i = 13 + da.len() as int;
        assert(pa[i] == '-');
        assert(kb[i] == db[i - 13]);
        assert(is_digit(db[i - 13]));
        assert(!is_digit('-'));
    } else if da.len() > db.len() {
        let i = 13 + db.len() as int;
        assert(kb[i] == '-');
        assert(pa[i] == da[i - 13]);
        assert(is_digit(da[i - 13]));
        assert(!is_digit('-'));
    } else {
        assert(da =~= db) by {
            assert(forall|j: int| 0 <= j < da.len() ==> pa[13 + j] == da[j] && kb[13 + j] == db[j]);
        }
        lemma_dec_digits_injective(a, b);
    }
}

/// A field key of the same object yields its field name back.
pub proof fn lemma_field_key_injective(id: nat, f: Seq<char>, g: Seq<char>)
    requires
        field_key(id, f) == field_key(id, g),
    ensures
        f == g,
{
    lemma_strip_prefix(field_prefix(id), f, g);
}

pub proof fn lemma_key_text_ascii(id: nat)
    ensures
        ascii_chars(marker_prefix()),
        ascii_chars(field_prefix(id)),
        ascii_chars(marker_key(id)),
{
    lemma_dec_digits_valid(id);
    assert forall|i: int| 0 <= i < dec_digits(id).len() implies (#[trigger] dec_digits(
        id,
    )[i] as u32) < 128 by {
        assert(is_digit(dec_digits(id)[i]));
    }
}

pub fn counter_key_str() -> (r: String)
    ensures
        r@ == counter_key(),
{
    let r = String::from_str("object-index");
    proof {
        reveal_strlit("object-index");
        assert(r@ =~= counter_key());
    }
    r
}

pub fn marker_prefix_str() -> (r: String)
    ensures
        r@ == marker_prefix(),
{
    let r = String::from_str("object-exists-");
    proof {
        reveal_strlit("object-exists-");
        assert(r@ =~= marker_prefix());
    }
    r
}

pub fn marker_key_str(id: usize) -> (r: String)
    ensures
        r@ == marker_key(id as nat),
{
    let mut r = marker_prefix_str();
    let digits = format_dec(id as u64);
    r.append(digits.as_str());
    r
}

pub fn field_prefix_str(id: usize) -> (r: String)
    ensures
        r@ == field_prefix(id as nat),
{
    let mut r = String::from_str("object-field-");
    proof {
        reveal_strlit("object-field-");
        assert(r@ =~= field_root());
    }
    let digits = format_dec(id as u64);
    r.append(digits.as_str());
    push_char(&mut r, '-');
    assert(r@ =~= field_prefix(id as nat));
    r
}

pub fn field_key_str(id: usize, f: &str) -> (r: String)
    ensures
        r@ == field_key(id as nat, f@),
{
    let mut r = field_prefix_str(id);
    r.append(f);
    r
}

} // verus!
