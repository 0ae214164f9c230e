use indexmap::IndexMap;
use rustc_hash::FxBuildHasher;
use crate::text::{lemma_boundary_extends, lemma_boundary_in_prefix, lemma_encode_concat};
use vstd::prelude::*;
use vstd::string::StringSliceAdditionalSpecFns;
use vstd::utf8::{
    decode_utf8, encode_utf8, encode_utf8_decode_utf8, encode_utf8_valid_utf8, is_char_boundary,
    is_char_boundary_start_end_of_seq,
};

verus! {

#[verifier::external_type_specification]
#[verifier::external_body]
#[verifier::reject_recursive_types(K)]
#[verifier::reject_recursive_types(V)]
#[verifier::reject_recursive_types(S)]
pub struct ExIndexMap<K, V, S>(IndexMap<K, V, S>);

#[verifier::external_type_specification]
#[verifier::external_body]
pub struct ExFxBuildHasher(FxBuildHasher);

/// The entries of an ordered map from texts to positions, in their order.
pub uninterp spec fn map_entries(m: IndexMap<String, usize, FxBuildHasher>) -> Seq<
    (Seq<char>, usize),
>;

/// The position of the first entry from `i` on with the key `key`.
pub open spec fn key_index(entries: Seq<(Seq<char>, usize)>, key: Seq<char>, i: int) -> Option<int>
    decreases entries.len() - i,
{
    if i >= entries.len() {
        None
    } else if entries[i].0 == key {
        Some(i)
    } else {
        key_index(entries, key, i + 1)
    }
}

/// No two entries have the same key.
pub open spec fn distinct_keys(entries: Seq<(Seq<char>, usize)>) -> bool {
    forall|i: int, j: int|
        0 <= i < j < entries.len() ==> (#[trigger] entries[i]).0 != (#[trigger] entries[j]).0
}

/// `IndexMap::with_hasher`: a map without entries.
#[verifier::external_body]
pub(crate) fn index_map_new() -> (m: IndexMap<String, usize, FxBuildHasher>)
    ensures
        map_entries(m).len() == 0,
{
    IndexMap::with_hasher(FxBuildHasher)
}

/// `IndexMap::len`: the number of entries.
#[verifier::external_body]
pub(crate) fn index_map_len(m: &IndexMap<String, usize, FxBuildHasher>) -> (n: usize)
    ensures
        n == map_entries(*m).len(),
{
    m.len()
}

/// `IndexMap::insert`: where the key is there already, its entry keeps its
/// place and takes the new value; else the entry is added at the end.
#[verifier::external_body]
pub(crate) fn index_map_insert(
    m: &mut IndexMap<String, usize, FxBuildHasher>,
    key: String,
    value: usize,
)
    ensures
        map_entries(*final(m)) == match key_index(map_entries(*old(m)), key@, 0) {
            Some(i) => map_entries(*old(m)).update(i, (key@, value)),
            None => map_entries(*old(m)).push((key@, value)),
        },
{
    m.insert(key, value);
}

/// `IndexMap::get_full`: the position and the value of the entry with the
/// key `key`, if there is one.
#[verifier::external_body]
pub(crate) fn index_map_get_full(m: &IndexMap<String, usize, FxBuildHasher>, key: &str) -> (r:
    Option<(usize, usize)>)
    ensures
        match r {
            Some(e) => key_index(map_entries(*m), key@, 0) == Some(e.0 as int) && e.1
                == map_entries(*m)[e.0 as int].1,
            None => key_index(map_entries(*m), key@, 0) is None,
        },
{
    m.get_full(key).map(|(i, _, v)| (i, *v))
}

/// `IndexMap::get_index`: key and value of the entry at the position `i`, if
/// there are that many.
#[verifier::external_body]
pub(crate) fn index_map_get_index(m: &IndexMap<String, usize, FxBuildHasher>, i: usize) -> (r:
    Option<(&String, usize)>)
    ensures
        match r {
            Some(e) => i < map_entries(*m).len() && e.0@ == map_entries(*m)[i as int].0 && e.1
                == map_entries(*m)[i as int].1,
            None => i >= map_entries(*m).len(),
        },
{
    m.get_index(i).map(|(k, v)| (k, *v))
}

/// What `key_index` finds is the first entry with the key.
pub proof fn lemma_key_index(entries: Seq<(Seq<char>, usize)>, key: Seq<char>, i: int)
    requires
        0 <= i,
    ensures
        match key_index(entries, key, i) {
            Some(k) => i <= k < entries.len() && entries[k].0 == key && forall|j: int|
                i <= j < k ==> entries[j].0 != key,
            None => forall|j: int| i <= j < entries.len() ==> entries[j].0 != key,
        },
    decreases entries.len() - i,
{
    if i < entries.len() && entries[i].0 != key {
        lemma_key_index(entries, key, i + 1);
    }
}

/// Where the offsets of the entries do not decrease and stay within `len`.
pub open spec fn offsets_ordered(entries: Seq<(Seq<char>, usize)>, len: int) -> bool {
    &&& forall|i: int, j: int|
        0 <= i <= j < entries.len() ==> (#[trigger] entries[i]).1 <= (#[trigger] entries[j]).1
    &&& forall|i: int| 0 <= i < entries.len() ==> (#[trigger] entries[i]).1 <= len
}

/// Where the value of the entry at `i` starts: where the one before it ends.
pub open spec fn value_start(entries: Seq<(Seq<char>, usize)>, i: int) -> int {
    if i == 0 {
        0
    } else {
        entries[i - 1].1 as int
    }
}

/// Each offset is the place at which a character of the encoded text begins.
pub open spec fn offsets_on_boundaries(entries: Seq<(Seq<char>, usize)>, bytes: Seq<u8>) -> bool {
    forall|i: int| 0 <= i < entries.len() ==> is_char_boundary(bytes, (#[trigger] entries[i]).1 as int)
}

/// Keys and values of a map whose values lie one behind the other in `data`,
/// each ending at the offset, counted in bytes, that belongs to its key.
pub open spec fn pairs_of(data: Seq<char>, entries: Seq<(Seq<char>, usize)>) -> Seq<
    (Seq<char>, Seq<char>),
> {
    Seq::new(
        entries.len(),
        |i: int|
            (
                entries[i].0,
                decode_utf8(
                    encode_utf8(data).subrange(value_start(entries, i), entries[i].1 as int),
                ),
            ),
    )
}

/// The value that belongs to `key` among `pairs`, if any.
pub open spec fn value_of(pairs: Seq<(Seq<char>, Seq<char>)>, key: Seq<char>, i: int) -> Option<
    Seq<char>,
>
    decreases pairs.len() - i,
{
    if i >= pairs.len() {
        None
    } else if pairs[i].0 == key {
        Some(pairs[i].1)
    } else {
        value_of(pairs, key, i + 1)
    }
}

/// An ordered map from texts to texts. The values lie one behind the other
/// in one buffer; the map proper leads from each key to the position in the
/// buffer, counted in bytes, at which its value ends.
#[derive(Debug)]
pub struct StringMap {
    data: String,
    indices: IndexMap<String, usize, FxBuildHasher>,
}

impl View for StringMap {
    type V = Seq<(Seq<char>, Seq<char>)>;

    closed spec fn view(&self) -> Seq<(Seq<char>, Seq<char>)> {
        pairs_of(self.data@, map_entries(self.indices))
    }
}

/// Looking up a key among the pairs follows the position of the key.
pub proof fn lemma_value_of(
    data: Seq<char>,
    entries: Seq<(Seq<char>, usize)>,
    key: Seq<char>,
    i: int,
)
    requires
        0 <= i,
    ensures
        value_of(pairs_of(data, entries), key, i) == match key_index(entries, key, i) {
            Some(k) => Some(pairs_of(data, entries)[k].1),
            None => None,
        },
    decreases entries.len() - i,
{
    let pairs = pairs_of(data, entries);
    if i < entries.len() {
        assert(pairs[i].0 == entries[i].0);
        if entries[i].0 != key {
            lemma_value_of(data, entries, key, i + 1);
        }
    }
}

impl StringMap {
    #[verifier::type_invariant]
    pub closed spec fn inv(&self) -> bool {
        &&& distinct_keys(map_entries(self.indices))
        &&& offsets_ordered(map_entries(self.indices), encode_utf8(self.data@).len() as int)
        &&& offsets_on_boundaries(map_entries(self.indices), encode_utf8(self.data@))
    }

    /// A map of the pairs, in their order; of two pairs with the same key the
    /// first stays.
    pub fn from_pairs(pairs: &Vec<(String, String)>) -> (r: StringMap)
        ensures
            r@ == first_pairs(pair_views(pairs@), pairs@.len() as int),
    {
        let mut data = String::new();
        let mut indices = index_map_new();
        let ghost all = pair_views(pairs@);
        let mut i: usize = 0;
        proof {
            assert(pairs_of(data@, map_entries(indices)) =~= first_pairs(all, 0));
        }
        while i < pairs.len()
            invariant
                i <= pairs.len(),
                all == pair_views(pairs@),
                distinct_keys(map_entries(indices)),
                offsets_ordered(map_entries(indices), encode_utf8(data@).len() as int),
                offsets_on_boundaries(map_entries(indices), encode_utf8(data@)),
                pairs_of(data@, map_entries(indices)) == first_pairs(all, i as int),
                map_entries(indices).len() > 0 ==> map_entries(indices).last().1 == encode_utf8(
                    data@,
                ).len(),
                map_entries(indices).len() == 0 ==> data@.len() == 0,
            decreases pairs.len() - i,
        {
            let pair = &pairs[i];
            assert(all[i as int] == (pair.0@, pair.1@));
            let ghost entries = map_entries(indices);
            let ghost before = pairs_of(data@, entries);
            proof {
                lemma_key_index(entries, pair.0@, 0);
                lemma_has_key(data@, entries, pair.0@);
            }
            if index_map_get_full(&indices, pair.0.as_str()).is_none() {
                let ghost old_data = data@;
                let ghost old_bytes = encode_utf8(old_data);
                data.append(pair.1.as_str());
                let end = data.as_str().as_bytes().len();
                index_map_insert(&mut indices, pair.0.clone(), end);
                proof {
                    let now = map_entries(indices);
                    let bytes = encode_utf8(data@);
                    let added = encode_utf8(pair.1@);
                    lemma_encode_concat(old_data, pair.1@);
                    encode_utf8_valid_utf8(old_data);
                    encode_utf8_valid_utf8(pair.1@);
                    encode_utf8_valid_utf8(data@);
                    encode_utf8_decode_utf8(pair.1@);
                    assert(bytes == old_bytes + added);
                    assert(now == entries.push((pair.0@, end)));
                    assert forall|a: int, b: int| 0 <= a <= b < now.len() implies (
                    #[trigger] now[a]).1 <= (#[trigger] now[b]).1 by {
                        if b == entries.len() {
                            if a < b {
                                assert(entries[a].1 <= old_bytes.len());
                            }
                        }
                    }
                    assert forall|k: int| 0 <= k < now.len() implies is_char_boundary(
                        bytes,
                        (#[trigger] now[k]).1 as int,
                    ) by {
                        if k < entries.len() {
                            assert(now[k] == entries[k]);
                            assert(entries[k].1 <= old_bytes.len());
                            lemma_boundary_extends(old_bytes, added, entries[k].1 as int);
                        } else {
                            is_char_boundary_start_end_of_seq(bytes);
                        }
                    }
                    assert(pairs_of(data@, now) =~= before.push((pair.0@, pair.1@))) by {
                        assert forall|k: int| 0 <= k < entries.len() implies pairs_of(data@, now)[k]
                            == before[k] by {
                            assert(now[k] == entries[k]);
                            assert(entries[k].1 <= old_bytes.len());
                            assert(value_start(now, k) == value_start(entries, k));
                            if k > 0 {
                                assert(entries[k - 1].1 <= entries[k].1);
                            }
                            assert(bytes.subrange(value_start(entries, k), entries[k].1 as int)
                                =~= old_bytes.subrange(
                                value_start(entries, k),
                                entries[k].1 as int,
                            ));
                        }
                        let k = entries.len() as int;
                        if k > 0 {
                            assert(now[k - 1] == entries[k - 1]);
                        } else {
                            assert(old_data =~= Seq::<char>::empty());
                            assert(old_bytes.len() == 0);
                        }
                        assert(value_start(now, k) == old_bytes.len());
                        assert(bytes.subrange(old_bytes.len() as int, end as int) =~= added);
                    }
                }
            }
            i += 1;
        }
        StringMap { data, indices }
    }

    /// The value that lies in the buffer from `start` to `end`.
    fn slice(&self, start: usize, end: usize) -> (r: &str)
        requires
            start <= end <= encode_utf8(self.data@).len(),
            is_char_boundary(encode_utf8(self.data@), start as int),
            is_char_boundary(encode_utf8(self.data@), end as int),
        ensures
            r@ == decode_utf8(encode_utf8(self.data@).subrange(start as int, end as int)),
    {
        let ghost bytes = encode_utf8(self.data@);
        proof {
            encode_utf8_valid_utf8(self.data@);
            lemma_boundary_in_prefix(bytes, start as int, end as int);
        }
        let (head, _) = self.data.as_str().split_at(end);
        let (_, value) = head.split_at(start);
        proof {
            assert(value.spec_bytes() =~= bytes.subrange(start as int, end as int));
            encode_utf8_decode_utf8(value@);
        }
        value
    }

    /// The value that belongs to `key`.
    pub fn get(&self, key: &str) -> (r: Option<&str>)
        ensures
            match value_of(self@, key@, 0) {
                Some(v) => r matches Some(s) && s@ == v,
                None => r is None,
            },
    {
        proof {
            use_type_invariant(self);
            lemma_value_of(self.data@, map_entries(self.indices), key@, 0);
            lemma_key_index(map_entries(self.indices), key@, 0);
        }
        match index_map_get_full(&self.indices, key) {
            Some((i, end)) => {
                let ghost entries = map_entries(self.indices);
                let start = if i == 0 {
                    0
                } else {
                    match index_map_get_index(&self.indices, i - 1) {
                        Some((_, before)) => before,
                        None => 0,
                    }
                };
                proof {
                    assert(start == value_start(entries, i as int));
                    if i > 0 {
                        assert(entries[i - 1].1 <= entries[i as int].1);
                        assert(is_char_boundary(encode_utf8(self.data@), entries[i - 1].1 as int));
                    } else {
                        encode_utf8_valid_utf8(self.data@);
                    }
                    assert(is_char_boundary(encode_utf8(self.data@), entries[i as int].1 as int));
                    assert(entries[i as int].1 <= encode_utf8(self.data@).len());
                }
                Some(self.slice(start, end))
            },
            None => None,
        }
    }

    /// The number of pairs.
    pub fn len(&self) -> (n: usize)
        ensures
            n == self@.len(),
    {
        index_map_len(&self.indices)
    }

    /// Keys and values, in their order.
    pub fn pairs(&self) -> (r: Vec<(&str, &str)>)
        ensures
            r@.len() == self@.len(),
            forall|i: int|
                0 <= i < r@.len() ==> (#[trigger] r@[i]).0@ == self@[i].0 && r@[i].1@ == self@[i].1,
    {
        proof {
            use_type_invariant(self);
            encode_utf8_valid_utf8(self.data@);
        }
        let n = index_map_len(&self.indices);
        let ghost bytes = encode_utf8(self.data@);
        let mut out: Vec<(&str, &str)> = Vec::new();
        let mut start: usize = 0;
        let mut i: usize = 0;
        while i < n
            invariant
                i <= n,
                n == map_entries(self.indices).len(),
                bytes == encode_utf8(self.data@),
                offsets_ordered(map_entries(self.indices), bytes.len() as int),
                offsets_on_boundaries(map_entries(self.indices), bytes),
                is_char_boundary(bytes, start as int),
                start == value_start(map_entries(self.indices), i as int),
                out@.len() == i,
                forall|k: int|
                    0 <= k < i ==> (#[trigger] out@[k]).0@ == self@[k].0 && out@[k].1@
                        == self@[k].1,
            decreases n - i,
        {
            match index_map_get_index(&self.indices, i) {
                Some((key, end)) => {
                    proof {
                        let entries = map_entries(self.indices);
                        if i > 0 {
                            assert(entries[i - 1].1 <= entries[i as int].1);
                        }
                        assert(is_char_boundary(bytes, entries[i as int].1 as int));
                    }
                    let value = self.slice(start, end);
                    out.push((key.as_str(), value));
                    start = end;
                },
                None => {},
            }
            i += 1;
        }
        out
    }
}

/// Whether a key is among the entries shows in the pairs.
pub proof fn lemma_has_key(data: Seq<char>, entries: Seq<(Seq<char>, usize)>, key: Seq<char>)
    ensures
        key_index(entries, key, 0) is Some <==> exists|j: int|
            0 <= j < entries.len() && #[trigger] pairs_of(data, entries)[j].0 == key,
{
    lemma_key_index(entries, key, 0);
    let pairs = pairs_of(data, entries);
    if key_index(entries, key, 0) is Some {
        let k = key_index(entries, key, 0)->0;
        assert(pairs[k].0 == key);
    } else {
        assert forall|j: int| 0 <= j < entries.len() implies #[trigger] pairs[j].0 != key by {
            assert(entries[j].0 != key);
        }
    }
}

/// The views of a list of pairs.
pub open spec fn pair_views(pairs: Seq<(String, String)>) -> Seq<(Seq<char>, Seq<char>)> {
    Seq::new(pairs.len(), |i: int| (pairs[i].0@, pairs[i].1@))
}

/// The first `upto` pairs without those whose key occurred before.
pub open spec fn first_pairs(pairs: Seq<(Seq<char>, Seq<char>)>, upto: int) -> Seq<
    (Seq<char>, Seq<char>),
>
    decreases upto,
{
    if upto <= 0 {
        Seq::empty()
    } else {
        let before = first_pairs(pairs, upto - 1);
        if exists|j: int| 0 <= j < before.len() && #[trigger] before[j].0 == pairs[upto - 1].0 {
            before
        } else {
            before.push(pairs[upto - 1])
        }
    }
}

} // verus!
