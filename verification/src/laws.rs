//! The store's governing laws, proved once over its abstract model.
//!
//! Each law is stated against the effect functions of [`crate::store`]
//! (`create_post`, `set_post`, `destroy_post`), which the store's methods are
//! proved to implement.

use vstd::prelude::*;
use crate::codec::json_decode;
use crate::codec::lemma_value_round_trip;
use crate::codec::value_json;
use crate::keys::counter_key;
use crate::keys::field_key;
use crate::keys::field_prefix;
use crate::keys::lemma_field_prefix_injective;
use crate::keys::lemma_key_families;
use crate::keys::lemma_marker_key_injective;
use crate::keys::marker_key;
use crate::numbers::lemma_dec_digits_valid;
use crate::numbers::lemma_dec_val_of_digits;
use crate::store::counter_of;
use crate::store::create_post;
use crate::store::destroy_post;
use crate::store::field_of;
use crate::store::has_obj;
use crate::store::set_post;
use crate::store::StoreModel;
use crate::value::ValueModel;

verus! {

/// The store reached after `n` successive creates.
pub open spec fn create_iter(m: StoreModel, n: nat) -> StoreModel
    decreases n,
{
    if n == 0 {
        m
    } else {
        create_post(create_iter(m, (n - 1) as nat))
    }
}

/// A field key is under its own object's field prefix.
proof fn lemma_field_key_prefixed(id: nat, f: Seq<char>)
    ensures
        field_prefix(id).is_prefix_of(field_key(id, f)),
{
    assert(field_key(id, f).subrange(0, field_prefix(id).len() as int) =~= field_prefix(id));
}

/// One create allocates the counter's value and advances the counter by one.
pub proof fn lemma_create_advances_counter(m: StoreModel)
    requires
        counter_of(m) + 1 <= usize::MAX,
    ensures
        counter_of(create_post(m)) == counter_of(m) + 1,
        has_obj(create_post(m), counter_of(m)),
        forall|id: nat| id != counter_of(m) ==> has_obj(create_post(m), id) == has_obj(m, id),
        forall|id: nat, f: Seq<char>|
            field_of(create_post(m), id, f) == #[trigger] field_of(m, id, f),
{
    let c = counter_of(m);
    lemma_dec_digits_valid((c + 1) as nat);
    lemma_dec_val_of_digits((c + 1) as nat);
    lemma_key_families(0, c);
    assert(create_post(m)[counter_key()] == crate::numbers::dec_digits((c + 1) as nat));
    assert forall|id: nat| id != c implies has_obj(create_post(m), id) == has_obj(m, id) by {
        lemma_marker_key_injective(id, c);
        lemma_key_families(0, id);
    }
    assert forall|id: nat, f: Seq<char>|
        field_of(create_post(m), id, f) == #[trigger] field_of(m, id, f) by {
        lemma_field_key_prefixed(id, f);
        lemma_key_families(id, c);
        assert(field_key(id, f) != marker_key(c));
        assert(field_key(id, f) != counter_key());
    }
}

/// Unique monotonic ids: starting from any store, `n` successive creates
/// return exactly the ids `k, k + 1, ..., k + n - 1`, where `k` is the
/// counter's value at the start — no duplicates and no gaps.  The id returned
/// by the `i`-th create is the counter of the store it runs against.
pub proof fn lemma_creates_consecutive(m: StoreModel, n: nat)
    requires
        counter_of(m) + n <= usize::MAX,
    ensures
        forall|i: nat| i < n ==> counter_of(#[trigger] create_iter(m, i)) == counter_of(m) + i,
    decreases n,
{
    if n > 0 {
        lemma_creates_consecutive(m, (n - 1) as nat);
        if n >= 2 {
            lemma_create_advances_counter(create_iter(m, (n - 2) as nat));
        }
    }
}

/// Ids are never reused while the store lives: every existing id lies below
/// the counter, and each operation keeps it so.
pub open spec fn ids_bounded(m: StoreModel) -> bool {
    forall|id: nat| #[trigger] has_obj(m, id) ==> id < counter_of(m)
}

/// A fresh id is no existing object's id, and creating keeps the bound.
pub proof fn lemma_create_never_reuses(m: StoreModel)
    requires
        ids_bounded(m),
        counter_of(m) + 1 <= usize::MAX,
    ensures
        !has_obj(m, counter_of(m)),
        ids_bounded(create_post(m)),
{
    lemma_create_advances_counter(m);
    assert forall|id: nat| #[trigger] has_obj(create_post(m), id) implies id < counter_of(
        create_post(m),
    ) by {
        if id != counter_of(m) {
            assert(has_obj(m, id));
        }
    }
}

/// The other mutations keep every existing id below the counter, so an id,
/// once allocated, is never handed out again while the store lives.
pub proof fn lemma_bound_preserved(m: StoreModel, id: nat, f: Seq<char>, enc: Seq<char>)
    requires
        ids_bounded(m),
    ensures
        ids_bounded(set_post(m, id, f, enc)),
        ids_bounded(destroy_post(m, id)),
{
    lemma_set_effect(m, id, f, enc);
    lemma_destroy_idempotent(m, id);
    assert forall|id2: nat| #[trigger] has_obj(set_post(m, id, f, enc), id2) implies id2
        < counter_of(set_post(m, id, f, enc)) by {
        assert(has_obj(m, id2));
    }
    assert forall|id2: nat| #[trigger] has_obj(destroy_post(m, id), id2) implies id2 < counter_of(
        destroy_post(m, id),
    ) by {
        assert(id2 != id);
        assert(has_obj(m, id2));
    }
}

/// Writing a field never moves the counter or any marker, and lands on
/// exactly the one field written.
pub proof fn lemma_set_effect(m: StoreModel, id: nat, f: Seq<char>, enc: Seq<char>)
    ensures
        counter_of(set_post(m, id, f, enc)) == counter_of(m),
        forall|id2: nat| has_obj(set_post(m, id, f, enc), id2) == #[trigger] has_obj(m, id2),
        field_of(set_post(m, id, f, enc), id, f) == Some(enc),
        forall|id2: nat, g: Seq<char>|
            !(id2 == id && g == f) ==> field_of(set_post(m, id, f, enc), id2, g) == #[trigger]
                field_of(m, id2, g),
{
    let fk = field_key(id, f);
    lemma_field_key_prefixed(id, f);
    lemma_key_families(id, 0);
    assert(fk != counter_key());
    assert forall|id2: nat| has_obj(set_post(m, id, f, enc), id2) == #[trigger] has_obj(
        m,
        id2,
    ) by {
        lemma_key_families(id, id2);
        assert(fk != marker_key(id2));
    }
    assert forall|id2: nat, g: Seq<char>|
        !(id2 == id && g == f) implies field_of(set_post(m, id, f, enc), id2, g) == #[trigger]
        field_of(m, id2, g) by {
        if field_key(id2, g) == fk {
            lemma_field_key_prefixed(id2, g);
            lemma_field_prefix_injective(id2, id, f);
            crate::keys::lemma_field_key_injective(id, g, f);
        }
    }
}

/// Idempotent destroy: after the destroy that removed the marker, the object
/// is gone, so any later destroy of the same id reports it missing.  Other
/// objects and the counter are untouched.
pub proof fn lemma_destroy_idempotent(m: StoreModel, id: nat)
    ensures
        !has_obj(destroy_post(m, id), id),
        counter_of(destroy_post(m, id)) == counter_of(m),
        forall|id2: nat|
            id2 != id ==> #[trigger] has_obj(destroy_post(m, id), id2) == has_obj(m, id2),
{
    lemma_key_families(id, id);
    assert forall|id2: nat|
        id2 != id implies #[trigger] has_obj(destroy_post(m, id), id2) == has_obj(m, id2) by {
        lemma_marker_key_injective(id2, id);
        lemma_key_families(id, id2);
    }
}

/// Post-destroy invisibility: once destroy has won, no field of the id is
/// observable, whatever was stored before.
pub proof fn lemma_destroy_invisible(m: StoreModel, id: nat, f: Seq<char>)
    ensures
        !has_obj(destroy_post(m, id), id),
        field_of(destroy_post(m, id), id, f) is None,
{
    lemma_destroy_idempotent(m, id);
    lemma_field_key_prefixed(id, f);
}

/// Field round-trip: writing any well-formed value and reading the same field
/// back yields that value exactly, on any existing object.
pub proof fn lemma_set_get_round_trip(m: StoreModel, id: nat, f: Seq<char>, v: ValueModel)
    requires
        v.wf(),
    ensures
        field_of(set_post(m, id, f, value_json(v)), id, f) == Some(value_json(v)),
        json_decode(value_json(v)) == Some(v),
{
    lemma_set_effect(m, id, f, value_json(v));
    lemma_value_round_trip(v);
}

} // verus!
