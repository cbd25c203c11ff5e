//! The object store: lifecycle and field access over one durable, ordered,
//! transactional key-value tree.
//!
//! The tree is sled's; everything the store relies on from it stands behind
//! the trusted items at the top of this module.  Their contracts speak of
//! [`tree_model`], the map of entries the tree durably holds, and the store's
//! own methods are verified against those contracts.

use vstd::prelude::*;
use crate::codec::decode_value;
use crate::codec::encode_value;
use crate::codec::json_decode;
use crate::codec::value_json;
use crate::keys::ascii_chars;
use crate::keys::counter_key;
use crate::keys::counter_key_str;
use crate::keys::field_key;
use crate::keys::field_prefix;
use crate::keys::field_prefix_str;
use crate::keys::field_key_str;
use crate::keys::lemma_key_text_ascii;
use crate::keys::marker_key;
use crate::keys::marker_key_str;
use crate::keys::marker_prefix;
use crate::keys::marker_prefix_str;
use crate::numbers::dec_digits;
use crate::numbers::dec_val;
use crate::numbers::valid_dec;
use crate::script::FieldWrite;
use crate::text::lex_lt;
use crate::value::Value;

verus! {

/// The underlying engine could not complete a read or write.  Fatal to the
/// triggering command; nothing weaker recovers it.
#[derive(Clone, Copy, Debug, PartialEq, Eq)]
pub struct StorageFault;

impl StorageFault {
    /// The wording used when the fault is reported to a session.
    pub fn text(&self) -> (r: String)
        ensures
            r@ == "transaction error"@,
    {
        let r = String::from_str("transaction error");
        r
    }
}

#[verifier::external_type_specification]
#[verifier::external_body]
pub struct ExTree(sled::Tree);

/// What the tree durably holds: its entries whose key and value are both
/// valid UTF-8, each as a sequence of characters.
pub uninterp spec fn tree_model(t: sled::Tree) -> Map<Seq<char>, Seq<char>>;

/// The abstract content of a store.
pub type StoreModel = Map<Seq<char>, Seq<char>>;

/// The next id to allocate: the decimal value under the counter key, or zero
/// where the key is absent or does not hold canonical decimal text that fits
/// a `usize`.
pub open spec fn counter_of(m: StoreModel) -> nat {
    if m.contains_key(counter_key()) && valid_dec(m[counter_key()]) && dec_val(
        m[counter_key()],
    ) <= usize::MAX {
        dec_val(m[counter_key()])
    } else {
        0
    }
}

pub open spec fn has_obj(m: StoreModel, id: nat) -> bool {
    m.contains_key(marker_key(id))
}

pub open spec fn field_of(m: StoreModel, id: nat, f: Seq<char>) -> Option<Seq<char>> {
    if m.contains_key(field_key(id, f)) {
        Some(m[field_key(id, f)])
    } else {
        None
    }
}

/// The store after a successful `create`: counter bumped and marker written,
/// together.
pub open spec fn create_post(m: StoreModel) -> StoreModel {
    m.insert(counter_key(), dec_digits(counter_of(m) + 1)).insert(
        marker_key(counter_of(m)),
        Seq::empty(),
    )
}

/// The store after `set` on an existing object.
pub open spec fn set_post(m: StoreModel, id: nat, f: Seq<char>, enc: Seq<char>) -> StoreModel {
    m.insert(field_key(id, f), enc)
}

/// The store after a winning `destroy`: the marker and every key under the
/// object's field prefix are gone.
pub open spec fn destroy_post(m: StoreModel, id: nat) -> StoreModel {
    m.remove(marker_key(id)).remove_keys(Set::new(|k: Seq<char>| field_prefix(id).is_prefix_of(k)))
}

/// What a failed create can have left behind.  The underlying engine stages
/// the counter write and the marker write and applies them one at a time when
/// the transaction commits, so an error during that commit can leave either
/// write, both, or neither.
pub open spec fn create_partial(pre: StoreModel, post: StoreModel) -> bool {
    ||| post == pre
    ||| post == pre.insert(counter_key(), dec_digits((counter_of(pre) + 1) as nat))
    ||| post == pre.insert(marker_key(counter_of(pre)), Seq::<char>::empty())
    ||| post == create_post(pre)
}

/// A failed destroy touches nothing outside the object's own keys.
pub open spec fn destroy_partial(pre: StoreModel, post: StoreModel, id: nat) -> bool {
    forall|k: Seq<char>|
        k != marker_key(id) && !field_prefix(id).is_prefix_of(k) ==> (
        #[trigger] post.contains_key(k) == pre.contains_key(k) && (pre.contains_key(k)
            ==> post[k] == pre[k]))
}

/// The text after the marker prefix in a scanned key.
spec fn marker_suffix(v: Seq<(String, String)>, j: int) -> Seq<char> {
    v[j].0@.subrange(marker_prefix().len() as int, v[j].0@.len() as int)
}

/// Whether a scanned marker key carries a canonical id that fits a `usize`.
spec fn canon_id_entry(v: Seq<(String, String)>, j: int) -> bool {
    valid_dec(marker_suffix(v, j)) && dec_val(marker_suffix(v, j)) <= usize::MAX
}

/// The id carried by a canonical scanned marker key.
spec fn entry_id(v: Seq<(String, String)>, j: int) -> usize {
    dec_val(marker_suffix(v, j)) as usize
}

/// What `list` returns: exactly the existing ids, each once, in ascending
/// order of their decimal text.
pub open spec fn list_ok(m: StoreModel, ids: Seq<usize>) -> bool {
    &&& forall|i: int| 0 <= i < ids.len() ==> has_obj(m, #[trigger] ids[i] as nat)
    &&& forall|id2: usize|
        #[trigger] has_obj(m, id2 as nat) ==> exists|i: int| 0 <= i < ids.len() && ids[i] == id2
    &&& forall|i: int, j: int|
        0 <= i < j < ids.len() ==> lex_lt(dec_digits(ids[i] as nat), dec_digits(ids[j] as nat))
}

/// What `show` returns: exactly the fields of the object whose stored text
/// decodes, with their values, in ascending order of field name.
pub open spec fn show_ok(m: StoreModel, id: nat, fields: Seq<(String, Value)>) -> bool {
    &&& forall|i: int|
        0 <= i < fields.len() ==> (field_of(m, id, (#[trigger] fields[i]).0@) matches Some(enc)
            && json_decode(enc) == Some(fields[i].1@))
    &&& forall|f: Seq<char>|
        (#[trigger] field_of(m, id, f)) matches Some(enc) && json_decode(enc) is Some
            ==> names_contain(fields, f)
    &&& forall|i: int, j: int| 0 <= i < j < fields.len() ==> lex_lt(fields[i].0@, fields[j].0@)
}

/// Whether one of the shown fields bears the given name.
pub open spec fn names_contain(fs: Seq<(String, Value)>, f: Seq<char>) -> bool {
    exists|a: int| 0 <= a < fs.len() && (#[trigger] fs[a]).0@ == f
}

/// The keys of the first `i` entries of a scan.
pub open spec fn keys_upto(v: Seq<(String, String)>, i: int) -> Set<Seq<char>> {
    Set::new(|k: Seq<char>| exists|j: int| 0 <= j < i && (#[trigger] v[j]).0@ == k)
}

/// Removing the marker and any set of field-prefixed keys leaves every other
/// key untouched.
proof fn lemma_partial_is_destroy_partial(
    pre: StoreModel,
    post: StoreModel,
    id: nat,
    s: Set<Seq<char>>,
)
    requires
        forall|k: Seq<char>| #[trigger] s.contains(k) ==> field_prefix(id).is_prefix_of(k),
        post == pre || post == pre.remove(marker_key(id)) || post == pre.remove(
            marker_key(id),
        ).remove_keys(s),
    ensures
        destroy_partial(pre, post, id),
{
    assert forall|k: Seq<char>|
        k != marker_key(id) && !field_prefix(id).is_prefix_of(k) implies (
    #[trigger] post.contains_key(k) == pre.contains_key(k) && (pre.contains_key(k) ==> post[k]
        == pre[k])) by {
        if post == pre.remove(marker_key(id)).remove_keys(s) {
            assert(!s.contains(k));
        }
    }
}

/// The store after one staged field write.
pub open spec fn apply_write(m: StoreModel, w: (usize, String, FieldWrite)) -> StoreModel {
    match w.2 {
        FieldWrite::Delete => m.remove(field_key(w.0 as nat, w.1@)),
        FieldWrite::Store(v) => m.insert(field_key(w.0 as nat, w.1@), value_json(v@)),
    }
}

/// The store after a run's staged field writes, applied in order: a later
/// write to the same field wins.
pub open spec fn writes_post(m: StoreModel, ws: Seq<(usize, String, FieldWrite)>) -> StoreModel
    decreases ws.len(),
{
    if ws.len() == 0 {
        m
    } else {
        writes_post(apply_write(m, ws[0]), ws.drop_first())
    }
}

/// Whether one of the staged writes lands on the given key.
pub open spec fn writes_touch(ws: Seq<(usize, String, FieldWrite)>, k: Seq<char>) -> bool {
    exists|j: int| 0 <= j < ws.len() && field_key((#[trigger] ws[j]).0 as nat, ws[j].1@) == k
}

/// A failed batch of staged writes touches no key outside the writes.
pub open spec fn writes_partial(
    pre: StoreModel,
    post: StoreModel,
    ws: Seq<(usize, String, FieldWrite)>,
) -> bool {
    forall|k: Seq<char>|
        !(#[trigger] writes_touch(ws, k)) ==> (post.contains_key(k) == pre.contains_key(k) && (
        pre.contains_key(k) ==> post[k] == pre[k]))
}

/// One raw batch entry: a key with a value to store, or none to delete.
pub open spec fn apply_entry(m: StoreModel, e: (String, Option<String>)) -> StoreModel {
    match e.1 {
        Some(s) => m.insert(e.0@, s@),
        None => m.remove(e.0@),
    }
}

/// The model after the raw entries of one batch, in order.
pub open spec fn entries_post(m: StoreModel, es: Seq<(String, Option<String>)>) -> StoreModel
    decreases es.len(),
{
    if es.len() == 0 {
        m
    } else {
        entries_post(apply_entry(m, es[0]), es.drop_first())
    }
}

/// Whether one of the raw entries lands on the given key.
pub open spec fn entries_touch(es: Seq<(String, Option<String>)>, k: Seq<char>) -> bool {
    exists|j: int| 0 <= j < es.len() && (#[trigger] es[j]).0@ == k
}

/// A failed batch touches no key outside its entries.
pub open spec fn entries_partial(
    pre: StoreModel,
    post: StoreModel,
    es: Seq<(String, Option<String>)>,
) -> bool {
    forall|k: Seq<char>|
        !(#[trigger] entries_touch(es, k)) ==> (post.contains_key(k) == pre.contains_key(k) && (
        pre.contains_key(k) ==> post[k] == pre[k]))
}

/// How a raw batch entry renders one staged field write.
pub open spec fn entry_matches(e: (String, Option<String>), w: (usize, String, FieldWrite)) -> bool {
    &&& e.0@ == field_key(w.0 as nat, w.1@)
    &&& match w.2 {
        FieldWrite::Delete => e.1 is None,
        FieldWrite::Store(v) => e.1 matches Some(s) && s@ == value_json(v@),
    }
}

/// Entries that render a run's writes one for one drive the model to the same
/// place.
proof fn lemma_entries_carry_writes(
    m: StoreModel,
    ws: Seq<(usize, String, FieldWrite)>,
    es: Seq<(String, Option<String>)>,
)
    requires
        es.len() == ws.len(),
        forall|j: int| 0 <= j < ws.len() ==> entry_matches(#[trigger] es[j], ws[j]),
    ensures
        entries_post(m, es) == writes_post(m, ws),
    decreases ws.len(),
{
    if ws.len() > 0 {
        assert(entry_matches(es[0], ws[0]));
        assert(apply_entry(m, es[0]) == apply_write(m, ws[0]));
        assert forall|j: int| 0 <= j < ws.drop_first().len() implies entry_matches(
            #[trigger] es.drop_first()[j],
            ws.drop_first()[j],
        ) by {
            assert(es.drop_first()[j] == es[j + 1]);
            assert(ws.drop_first()[j] == ws[j + 1]);
        }
        lemma_entries_carry_writes(apply_write(m, ws[0]), ws.drop_first(), es.drop_first());
    }
}

/// And a failed batch of such entries stays inside the writes' keys.
proof fn lemma_entries_partial_carries(
    pre: StoreModel,
    post: StoreModel,
    ws: Seq<(usize, String, FieldWrite)>,
    es: Seq<(String, Option<String>)>,
)
    requires
        es.len() == ws.len(),
        forall|j: int| 0 <= j < ws.len() ==> entry_matches(#[trigger] es[j], ws[j]),
        entries_partial(pre, post, es),
    ensures
        writes_partial(pre, post, ws),
{
    assert forall|k: Seq<char>|
        !(#[trigger] writes_touch(ws, k)) implies (post.contains_key(k) == pre.contains_key(k) && (
    pre.contains_key(k) ==> post[k] == pre[k])) by {
        assert(!entries_touch(es, k)) by {
            if entries_touch(es, k) {
                let j = choose|j: int| 0 <= j < es.len() && (#[trigger] es[j]).0@ == k;
                assert(entry_matches(es[j], ws[j]));
                assert(writes_touch(ws, k));
            }
        }
    }
}

/// What a prefix scan reports of the model: exactly the entries under the
/// prefix, in strictly increasing key order.
pub open spec fn scan_ok(m: StoreModel, p: Seq<char>, v: Seq<(String, String)>) -> bool {
    &&& forall|i: int|
        0 <= i < v.len() ==> {
            &&& p.is_prefix_of((#[trigger] v[i]).0@)
            &&& m.contains_key(v[i].0@)
            &&& m[v[i].0@] == v[i].1@
        }
    &&& forall|k: Seq<char>|
        #[trigger] m.contains_key(k) && p.is_prefix_of(k) ==> exists|i: int|
            0 <= i < v.len() && (#[trigger] v[i]).0@ == k
    &&& forall|i: int, j: int| 0 <= i < j < v.len() ==> lex_lt(v[i].0@, v[j].0@)
}

/// Relies on sled::Tree::get: returns the value stored under the key, if any.
#[verifier::external_body]
fn tree_get(t: &sled::Tree, key: &str) -> (r: Result<Option<String>, StorageFault>)
    ensures
        r matches Ok(o) ==> match o {
            Some(s) => tree_model(*t).contains_key(key@) && tree_model(*t)[key@] == s@,
            None => !tree_model(*t).contains_key(key@),
        },
{
    match t.get(key.as_bytes()) {
        Ok(o) => Ok(o.and_then(|iv| String::from_utf8(iv.to_vec()).ok())),
        Err(_) => Err(StorageFault),
    }
}

/// Relies on sled::Tree::insert: upserts one entry.  On an error the write
/// may or may not have reached the tree.
#[verifier::external_body]
fn tree_insert(t: &mut sled::Tree, key: &str, val: &str) -> (r: Result<(), StorageFault>)
    ensures
        r is Ok ==> tree_model(*final(t)) == tree_model(*old(t)).insert(key@, val@),
        r is Err ==> tree_model(*final(t)) == tree_model(*old(t)) || tree_model(*final(t))
            == tree_model(*old(t)).insert(key@, val@),
{
    match t.insert(key.as_bytes(), val.as_bytes()) {
        Ok(_) => Ok(()),
        Err(_) => Err(StorageFault),
    }
}

/// Relies on sled::Tree::remove: removes one entry and reports whether it was
/// present.  On an error the removal may or may not have reached the tree.
#[verifier::external_body]
fn tree_remove(t: &mut sled::Tree, key: &str) -> (r: Result<bool, StorageFault>)
    ensures
        r matches Ok(was) ==> was == tree_model(*old(t)).contains_key(key@) && tree_model(
            *final(t),
        ) == tree_model(*old(t)).remove(key@),
        r is Err ==> tree_model(*final(t)) == tree_model(*old(t)) || tree_model(*final(t))
            == tree_model(*old(t)).remove(key@),
{
    match t.remove(key.as_bytes()) {
        Ok(prev) => Ok(prev.and_then(|iv| String::from_utf8(iv.to_vec()).ok()).is_some()),
        Err(_) => Err(StorageFault),
    }
}

/// Relies on sled::Tree::scan_prefix and on its iterators visiting entries in
/// ascending key order.  The prefix is ASCII, so a byte-level prefix match is
/// a character-level one, and byte order is character order on UTF-8 keys.
#[verifier::external_body]
fn tree_scan_prefix(t: &sled::Tree, prefix: &str) -> (r: Result<
    Vec<(String, String)>,
    StorageFault,
>)
    requires
        ascii_chars(prefix@),
    ensures
        r matches Ok(v) ==> scan_ok(tree_model(*t), prefix@, v@),
{
    let mut out: Vec<(String, String)> = Vec::new();
    for item in t.scan_prefix(prefix.as_bytes()) {
        let (k, val) = item.map_err(|_| StorageFault)?;
        let pair = (String::from_utf8(k.to_vec()), String::from_utf8(val.to_vec()));
        if let (Ok(ks), Ok(vs)) = pair {
            out.push((ks, vs));
        }
    }
    Ok(out)
}

/// Relies on sled::Tree::apply_batch: applies the entries as one batch, a
/// later entry for a key overriding an earlier one.  Crash recovery is atomic
/// for the whole batch; on a runtime error the engine may have applied part
/// of it, but touches no other key.
#[verifier::external_body]
fn tree_apply_batch(t: &mut sled::Tree, entries: &Vec<(String, Option<String>)>) -> (r: Result<
    (),
    StorageFault,
>)
    ensures
        r is Ok ==> tree_model(*final(t)) == entries_post(tree_model(*old(t)), entries@),
        r is Err ==> entries_partial(tree_model(*old(t)), tree_model(*final(t)), entries@),
{
    let mut batch = sled::Batch::default();
    for (k, v) in entries.iter() {
        match v {
            Some(s) => batch.insert(k.as_bytes(), s.as_bytes()),
            None => batch.remove(k.as_bytes()),
        }
    }
    t.apply_batch(batch).map_err(|_| StorageFault)
}

/// The two writes one create stages: the bumped counter's decimal text and
/// the new marker's key.  Nothing is staged at the counter's ceiling.
fn create_writes(id: usize) -> (r: Option<(String, String)>)
    ensures
        match r {
            Some(w) => id < usize::MAX && w.0@ == dec_digits((id + 1) as nat) && w.1@
                == marker_key(id as nat),
            None => id == usize::MAX,
        },
{
    if id == usize::MAX {
        return None;
    }
    let next = crate::numbers::format_dec((id + 1) as u64);
    let marker = marker_key_str(id);
    Some((next, marker))
}

/// Relies on sled::Tree::transaction with TransactionalTree::get and insert:
/// in one transaction, reads the counter key (parsing it exactly as
/// `counter_of` does, through `parse_dec_str`), aborts when the counter would
/// leave the `usize` range, and otherwise stages the writes that
/// `create_writes` builds: the bumped counter and the new marker.  On success
/// both writes are committed together.  On an error the engine may already
/// have applied either staged write, or both, or neither: its commit applies
/// them one at a time, in no fixed order, and stops at the failure.
#[verifier::external_body]
fn tree_create(t: &mut sled::Tree, counter_k: &str, marker_p: &str) -> (r: Result<
    usize,
    StorageFault,
>)
    requires
        counter_k@ == counter_key(),
        marker_p@ == marker_prefix(),
    ensures
        r matches Ok(id) ==> id as nat == counter_of(tree_model(*old(t))) && id < usize::MAX
            && tree_model(*final(t)) == create_post(tree_model(*old(t))),
        r is Err ==> create_partial(tree_model(*old(t)), tree_model(*final(t))),
{
    let res: sled::transaction::TransactionResult<usize, ()> = t.transaction(|tx| {
        let cur = tx.get(counter_k.as_bytes())?.and_then(|v| String::from_utf8(v.to_vec()).ok());
        let id: usize = cur.and_then(|s| crate::numbers::parse_dec_str(&s)).unwrap_or(0);
        let (next, marker) = match create_writes(id) {
            Some(w) => w,
            None => return Err(sled::transaction::ConflictableTransactionError::Abort(())),
        };
        tx.insert(counter_k.as_bytes(), next.into_bytes())?;
        tx.insert(marker.into_bytes(), Vec::<u8>::new())?;
        Ok(id)
    });
    res.map_err(|_| StorageFault)
}

/// The object store, over one tree of the underlying engine.
pub struct State {
    tree: sled::Tree,
}

impl State {
    /// The store's durable content.
    pub closed spec fn model(&self) -> StoreModel {
        tree_model(self.tree)
    }

    /// Wraps an opened tree.  The caller owns the only handle used for this
    /// store.
    pub fn new(tree: sled::Tree) -> (r: State)
        ensures
            r.model() == tree_model(tree),
    {
        State { tree }
    }

    /// Creates a new object and returns its id: the counter's value, with the
    /// counter bumped and the marker written in the same transaction.  On an
    /// error the engine may have applied part of the transaction's commit.
    pub fn create(&mut self) -> (r: Result<usize, StorageFault>)
        ensures
            match r {
                Ok(id) => id as nat == counter_of(old(self).model()) && id < usize::MAX
                    && final(self).model() == create_post(old(self).model()),
                Err(_) => create_partial(old(self).model(), final(self).model()),
            },
    {
        let ck = counter_key_str();
        let mp = marker_prefix_str();
        tree_create(&mut self.tree, ck.as_str(), mp.as_str())
    }

    /// Tests whether an object exists, by its marker.
    pub fn object_exists(&self, id: usize) -> (r: Result<bool, StorageFault>)
        ensures
            r matches Ok(b) ==> b == has_obj(self.model(), id as nat),
    {
        let mk = marker_key_str(id);
        match tree_get(&self.tree, mk.as_str()) {
            Ok(o) => Ok(o.is_some()),
            Err(e) => Err(e),
        }
    }

    /// Upserts a field on an existing object; a write to a missing object is
    /// dropped.
    pub fn set(&mut self, id: usize, key: &str, val: Value) -> (r: Result<(), StorageFault>)
        ensures
            r is Ok ==> final(self).model() == if has_obj(old(self).model(), id as nat) {
                set_post(old(self).model(), id as nat, key@, value_json(val@))
            } else {
                old(self).model()
            },
            r is Err ==> final(self).model() == old(self).model() || final(self).model() == set_post(
                old(self).model(),
                id as nat,
                key@,
                value_json(val@),
            ),
    {
        let present = self.object_exists(id)?;
        if !present {
            return Ok(());
        }
        let fk = field_key_str(id, key);
        let enc = encode_value(&val);
        tree_insert(&mut self.tree, fk.as_str(), enc.as_str())
    }

    /// Destroys an object: removes the marker, then sweeps every key under
    /// the object's field prefix.  Returns whether this call removed the
    /// marker; a call that finds it already gone changes nothing.
    pub fn destroy(&mut self, id: usize) -> (r: Result<bool, StorageFault>)
        ensures
            r matches Ok(b) ==> b == has_obj(old(self).model(), id as nat) && if b {
                final(self).model() == destroy_post(old(self).model(), id as nat)
            } else {
                final(self).model() == old(self).model()
            },
            r is Err ==> destroy_partial(old(self).model(), final(self).model(), id as nat),
    {
        let ghost pre = self.model();
        let ghost mkey = marker_key(id as nat);
        let ghost fprefix = field_prefix(id as nat);
        let mk = marker_key_str(id);
        let removed = match tree_remove(&mut self.tree, mk.as_str()) {
            Ok(b) => b,
            Err(e) => {
                proof {
                    lemma_partial_is_destroy_partial(pre, self.model(), id as nat, Set::empty());
                }
                return Err(e);
            },
        };
        if !removed {
            proof {
                assert(self.model() =~= pre);
            }
            return Ok(false);
        }
        let prefix = field_prefix_str(id);
        proof {
            lemma_key_text_ascii(id as nat);
        }
        let entries = match tree_scan_prefix(&self.tree, prefix.as_str()) {
            Ok(v) => v,
            Err(e) => {
                proof {
                    lemma_partial_is_destroy_partial(pre, self.model(), id as nat, Set::empty());
                }
                return Err(e);
            },
        };
        let ghost scanned = self.model();
        let n = entries.len();
        let mut i: usize = 0;
        assert(self.model() =~= pre.remove(mkey).remove_keys(keys_upto(entries@, 0)));
        while i < n
            invariant
                i <= n,
                n == entries@.len(),
                mkey == marker_key(id as nat),
                fprefix == field_prefix(id as nat),
                pre == old(self).model(),
                scan_ok(scanned, fprefix, entries@),
                scanned == pre.remove(mkey),
                self.model() == pre.remove(mkey).remove_keys(keys_upto(entries@, i as int)),
            decreases n - i,
        {
            let ghost before = self.model();
            let res = tree_remove(&mut self.tree, entries[i].0.as_str());
            let ghost ki = entries@[i as int].0@;
            proof {
                assert(fprefix.is_prefix_of(ki));
            }
            match res {
                Ok(_) => {},
                Err(e) => {
                    proof {
                        let up = keys_upto(entries@, i as int);
                        assert forall|k: Seq<char>| #[trigger] up.contains(k) implies
                            fprefix.is_prefix_of(k) by {
                            let j = choose|j: int| 0 <= j < i && entries@[j].0@ == k;
                            assert(fprefix.is_prefix_of(entries@[j].0@));
                        }
                        if self.model() == before.remove(ki) {
                            assert(before.remove(ki) =~= pre.remove(mkey).remove_keys(
                                up.insert(ki),
                            ));
                            lemma_partial_is_destroy_partial(pre, self.model(), id as nat,
                                up.insert(ki));
                        } else {
                            assert(self.model() == before);
                            lemma_partial_is_destroy_partial(pre, self.model(), id as nat, up);
                        }
                    }
                    return Err(e);
                },
            }
            proof {
                let up = keys_upto(entries@, i as int);
                assert forall|k: Seq<char>| #[trigger] up.contains(k) implies
                    fprefix.is_prefix_of(k) by {
                    let j = choose|j: int| 0 <= j < i && entries@[j].0@ == k;
                    assert(fprefix.is_prefix_of(entries@[j].0@));
                }
                assert(before.remove(ki) =~= pre.remove(mkey).remove_keys(up.insert(ki)));
                assert(up.insert(ki) =~= keys_upto(entries@, i + 1 as int)) by {
                    assert forall|k: Seq<char>| up.insert(ki).contains(k) implies keys_upto(
                        entries@,
                        i + 1 as int,
                    ).contains(k) by {
                        if k == ki {
                            assert(entries@[i as int].0@ == k);
                        }
                    }
                }
            }
            i = i + 1;
        }
        proof {
            let up = keys_upto(entries@, n as int);
            assert(pre.remove(mkey).remove_keys(up) =~= destroy_post(pre, id as nat)) by {
                let all = Set::new(|k: Seq<char>| fprefix.is_prefix_of(k));
                assert forall|k: Seq<char>|
                    #[trigger] pre.remove(mkey).contains_key(k) && !up.contains(k) implies !(
                all.contains(k) && pre.remove(mkey).contains_key(k)) by {
                    if all.contains(k) {
                        assert(scanned.contains_key(k) && fprefix.is_prefix_of(k));
                    }
                }
            }
        }
        Ok(true)
    }
    /// Lists the ids of all existing objects, in the order of their marker
    /// keys: ascending by the decimal text of the id.
    #[verifier::rlimit(100)]
    #[verifier::spinoff_prover]
    pub fn list(&self) -> (r: Result<Vec<usize>, StorageFault>)
        ensures
            r matches Ok(ids) ==> list_ok(self.model(), ids@),
    {
        let mp = marker_prefix_str();
        proof {
            lemma_key_text_ascii(0);
        }
        let entries = match tree_scan_prefix(&self.tree, mp.as_str()) {
            Ok(v) => v,
            Err(e) => {
                return Err(e);
            },
        };
        let ghost m = self.model();
        let mut ids: Vec<usize> = Vec::new();
        let n = entries.len();
        let mut i: usize = 0;
        while i < n
            invariant
                i <= n,
                n == entries@.len(),
                m == self.model(),
                scan_ok(m, marker_prefix(), entries@),
                forall|a: int|
                    0 <= a < ids@.len() ==> exists|j: int|
                        0 <= j < i && entries@[j].0@ == marker_key(#[trigger] ids@[a] as nat),
                forall|j: int|
                    0 <= j < i && canon_id_entry(entries@, j) ==> ids@.contains(
                        #[trigger] entry_id(entries@, j),
                    ),
                forall|a: int, b: int|
                    0 <= a < b < ids@.len() ==> lex_lt(
                        dec_digits(ids@[a] as nat),
                        dec_digits(ids@[b] as nat),
                    ),
            decreases n - i,
        {
            let ghost k = entries@[i as int].0@;
            assert(marker_prefix().is_prefix_of(k));
            let entry = &entries[i];
            let klen = entry.0.as_str().unicode_len();
            let suffix = entry.0.as_str().substring_char(14, klen);
            assert(suffix@ == k.subrange(14, k.len() as int));
            assert(suffix@ == marker_suffix(entries@, i as int));
            match crate::numbers::parse_dec_str(suffix) {
                Some(id2) => {
                    proof {
                        crate::numbers::lemma_valid_dec_canonical(suffix@);
                        assert(k =~= marker_prefix() + k.subrange(14, k.len() as int));
                        assert(k == marker_key(id2 as nat));
                        assert(canon_id_entry(entries@, i as int));
                        assert(entry_id(entries@, i as int) == id2);
                        assert forall|a: int|
                            0 <= a < ids@.len() implies lex_lt(
                            dec_digits(ids@[a] as nat),
                            dec_digits(id2 as nat),
                        ) by {
                            let j = choose|j: int|
                                0 <= j < i && entries@[j].0@ == marker_key(ids@[a] as nat);
                            assert(lex_lt(entries@[j].0@, entries@[i as int].0@));
                            crate::text::lemma_lex_lt_common_prefix(
                                marker_prefix(),
                                dec_digits(ids@[a] as nat),
                                dec_digits(id2 as nat),
                            );
                        }
                    }
                    let ghost old_ids = ids@;
                    ids.push(id2);
                    proof {
                        assert(ids@[old_ids.len() as int] == id2);
                        assert(ids@.contains(id2));
                        assert forall|x: usize| old_ids.contains(x) implies ids@.contains(x) by {
                            let a = choose|a: int| 0 <= a < old_ids.len() && old_ids[a] == x;
                            assert(ids@[a] == x);
                        }
                    }
                },
                None => {
                    proof {
                        assert(!canon_id_entry(entries@, i as int));
                    }
                },
            }
            i = i + 1;
        }
        proof {
            assert forall|id2: usize|
                #[trigger] has_obj(m, id2 as nat) implies exists|a: int|
                0 <= a < ids@.len() && ids@[a] == id2 by {
                let key2 = marker_key(id2 as nat);
                assert(marker_prefix().is_prefix_of(key2)) by {
                    assert(key2.subrange(0, 14) =~= marker_prefix());
                }
                assert(m.contains_key(key2));
                let j = choose|j: int| 0 <= j < entries@.len() && entries@[j].0@ == key2;
                assert(marker_suffix(entries@, j) =~= dec_digits(id2 as nat));
                crate::numbers::lemma_dec_digits_valid(id2 as nat);
                crate::numbers::lemma_dec_val_of_digits(id2 as nat);
                assert(canon_id_entry(entries@, j));
                assert(entry_id(entries@, j) == id2);
                assert(ids@.contains(id2));
                let a = choose|a: int| 0 <= a < ids@.len() && ids@[a] == id2;
                assert(0 <= a < ids@.len() && ids@[a] == id2);
            }
            assert(m == self.model());
            assert forall|id2: usize|
                #[trigger] has_obj(self.model(), id2 as nat) implies exists|a: int|
                    0 <= a < ids@.len() && ids@[a] == id2 by {
                assert(has_obj(m, id2 as nat));
            }
            assert forall|a: int|
                0 <= a < ids@.len() implies has_obj(self.model(), #[trigger] ids@[a] as nat) by {
                assert(has_obj(m, ids@[a] as nat));
            }
            assert(list_ok(self.model(), ids@));
        }
        Ok(ids)
    }

    /// Shows every field stored for an object whose value decodes, in
    /// ascending order of field name.
    #[verifier::rlimit(100)]
    pub fn show(&self, id: usize) -> (r: Result<Vec<(String, Value)>, StorageFault>)
        ensures
            r matches Ok(fields) ==> show_ok(self.model(), id as nat, fields@),
    {
        let prefix = field_prefix_str(id);
        proof {
            lemma_key_text_ascii(id as nat);
        }
        let plen = prefix.as_str().unicode_len();
        let entries = match tree_scan_prefix(&self.tree, prefix.as_str()) {
            Ok(v) => v,
            Err(e) => {
                return Err(e);
            },
        };
        let ghost m = self.model();
        let ghost fprefix = field_prefix(id as nat);
        let mut fields: Vec<(String, Value)> = Vec::new();
        let n = entries.len();
        let mut i: usize = 0;
        while i < n
            invariant
                i <= n,
                n == entries@.len(),
                m == self.model(),
                fprefix == field_prefix(id as nat),
                plen == fprefix.len(),
                scan_ok(m, fprefix, entries@),
                forall|a: int|
                    0 <= a < fields@.len() ==> (field_of(m, id as nat, (#[trigger] fields@[a]).0@)
                        matches Some(enc) && json_decode(enc) == Some(fields@[a].1@)),
                forall|a: int|
                    0 <= a < fields@.len() ==> exists|j: int|
                        0 <= j < i && entries@[j].0@ == field_key(
                            id as nat,
                            (#[trigger] fields@[a]).0@,
                        ),
                forall|j: int|
                    0 <= j < i && json_decode((#[trigger] entries@[j]).1@) is Some
                        ==> names_contain(
                        fields@,
                        entries@[j].0@.subrange(plen as int, entries@[j].0@.len() as int),
                    ),
                forall|a: int, b: int|
                    0 <= a < b < fields@.len() ==> lex_lt(fields@[a].0@, fields@[b].0@),
            decreases n - i,
        {
            let ghost k = entries@[i as int].0@;
            assert(fprefix.is_prefix_of(k));
            let entry = &entries[i];
            let klen = entry.0.as_str().unicode_len();
            let name = entry.0.as_str().substring_char(plen, klen).to_owned();
            let ghost namev = name@;
            proof {
                assert(namev == k.subrange(plen as int, k.len() as int));
                assert(k =~= fprefix + namev);
                assert(k == field_key(id as nat, namev));
            }
            match decode_value(entry.1.as_str()) {
                Some(val) => {
                    proof {
                        assert(m[k] == entries@[i as int].1@);
                        assert forall|a: int|
                            0 <= a < fields@.len() implies lex_lt(fields@[a].0@, namev) by {
                            let j = choose|j: int|
                                0 <= j < i && entries@[j].0@ == field_key(
                                    id as nat,
                                    fields@[a].0@,
                                );
                            assert(lex_lt(entries@[j].0@, entries@[i as int].0@));
                            crate::text::lemma_lex_lt_common_prefix(fprefix, fields@[a].0@, namev);
                        }
                    }
                    let ghost old_fields = fields@;
                    fields.push((name, val));
                    proof {
                        assert(fields@[old_fields.len() as int].0@ == namev);
                        assert(names_contain(fields@, namev));
                        assert forall|f: Seq<char>|
                            names_contain(old_fields, f) implies names_contain(fields@, f) by {
                            let a = choose|a: int| 0 <= a < old_fields.len() && old_fields[a].0@
                                == f;
                            assert(fields@[a].0@ == f);
                        }
                    }
                },
                None => {
                    proof {
                        assert(json_decode(entries@[i as int].1@) is None);
                    }
                },
            }
            i = i + 1;
        }
        proof {
            assert forall|f: Seq<char>|
                (#[trigger] field_of(m, id as nat, f)) matches Some(enc) && json_decode(enc)
                    is Some implies names_contain(fields@, f) by {
                let key2 = field_key(id as nat, f);
                assert(fprefix.is_prefix_of(key2)) by {
                    assert(key2.subrange(0, plen as int) =~= fprefix);
                }
                assert(m.contains_key(key2));
                let j = choose|j: int| 0 <= j < entries@.len() && entries@[j].0@ == key2;
                assert(m[key2] == entries@[j].1@);
                assert(entries@[j].0@.subrange(plen as int, entries@[j].0@.len() as int) =~= f);
            }
            assert(m == self.model());
            assert forall|f: Seq<char>|
                (#[trigger] field_of(self.model(), id as nat, f)) matches Some(enc)
                    && json_decode(enc) is Some implies names_contain(fields@, f) by {
                assert(field_of(m, id as nat, f) == field_of(self.model(), id as nat, f));
            }
            assert forall|i: int|
                0 <= i < fields@.len() implies (field_of(
                self.model(),
                id as nat,
                (#[trigger] fields@[i]).0@,
            ) matches Some(enc) && json_decode(enc) == Some(fields@[i].1@)) by {
                assert(field_of(m, id as nat, fields@[i].0@) == field_of(
                    self.model(),
                    id as nat,
                    fields@[i].0@,
                ));
            }
            assert(show_ok(self.model(), id as nat, fields@));
        }
        Ok(fields)
    }



    /// Upserts one field unconditionally, whether or not the object's marker
    /// is present.
    pub fn put_field(&mut self, id: usize, key: &str, val: Value) -> (r: Result<
        (),
        StorageFault,
    >)
        ensures
            r is Ok ==> final(self).model() == set_post(
                old(self).model(),
                id as nat,
                key@,
                value_json(val@),
            ),
            r is Err ==> final(self).model() == old(self).model() || final(self).model()
                == set_post(old(self).model(), id as nat, key@, value_json(val@)),
    {
        let fk = field_key_str(id, key);
        let enc = encode_value(&val);
        tree_insert(&mut self.tree, fk.as_str(), enc.as_str())
    }

    /// Deletes one field unconditionally.
    pub fn delete_field(&mut self, id: usize, key: &str) -> (r: Result<(), StorageFault>)
        ensures
            r is Ok ==> final(self).model() == old(self).model().remove(
                field_key(id as nat, key@),
            ),
            r is Err ==> final(self).model() == old(self).model() || final(self).model() == old(
                self,
            ).model().remove(field_key(id as nat, key@)),
    {
        let fk = field_key_str(id, key);
        match tree_remove(&mut self.tree, fk.as_str()) {
            Ok(_) => Ok(()),
            Err(e) => Err(e),
        }
    }

    /// Applies a verb run's staged field writes as one atomic batch: a run
    /// whose writes reach this point commits them together; one aborted
    /// earlier commits nothing.
    pub fn apply_field_writes(&mut self, writes: &Vec<(usize, String, FieldWrite)>) -> (r: Result<
        (),
        StorageFault,
    >)
        ensures
            r is Ok ==> final(self).model() == writes_post(old(self).model(), writes@),
            r is Err ==> writes_partial(old(self).model(), final(self).model(), writes@),
    {
        let mut entries: Vec<(String, Option<String>)> = Vec::new();
        let n = writes.len();
        let mut i: usize = 0;
        while i < n
            invariant
                i <= n,
                n == writes@.len(),
                entries@.len() == i,
                forall|j: int| 0 <= j < i ==> entry_matches(#[trigger] entries@[j], writes@[j]),
            decreases n - i,
        {
            let w = &writes[i];
            let key = field_key_str(w.0, w.1.as_str());
            let ent: (String, Option<String>) = match &w.2 {
                FieldWrite::Delete => (key, None),
                FieldWrite::Store(v) => (key, Some(encode_value(v))),
            };
            entries.push(ent);
            i = i + 1;
        }
        let r = tree_apply_batch(&mut self.tree, &entries);
        proof {
            match r {
                Ok(_) => {
                    lemma_entries_carry_writes(old(self).model(), writes@, entries@);
                },
                Err(_) => {
                    lemma_entries_partial_carries(
                        old(self).model(),
                        self.model(),
                        writes@,
                        entries@,
                    );
                },
            }
        }
        r
    }

    /// Reads a field of an object: the decoded stored value, or nothing.
    pub fn get(&self, id: usize, key: &str) -> (r: Result<Option<Value>, StorageFault>)
        ensures
            r matches Ok(o) ==> match o {
                Some(v) => field_of(self.model(), id as nat, key@) matches Some(enc)
                    && json_decode(enc) == Some(v@),
                None => field_of(self.model(), id as nat, key@) matches Some(enc)
                    ==> json_decode(enc) is None,
            },
    {
        let fk = field_key_str(id, key);
        match tree_get(&self.tree, fk.as_str()) {
            Ok(Some(enc)) => Ok(decode_value(enc.as_str())),
            Ok(None) => Ok(None),
            Err(e) => Err(e),
        }
    }
}

} // verus!
