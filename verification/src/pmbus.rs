use vstd::prelude::*;
use crate::bytes::{le_bytes, le_val, nonzero_pos, nul_pos, u16_at, u32_at, u64_at};
use crate::error::{Error, EINVAL};
use crate::utf8::is_utf8;

verus! {

/// A typed property value. Names and string values are byte strings that
/// were checked to be valid UTF-8 by the codec; a list holds a set of
/// distinct strings, kept here in insertion order without duplicates.
#[derive(Debug)]
pub enum ObjectProperty {
    String(Vec<u8>),
    Integer(u64),
    List(Vec<Vec<u8>>),
}

/// The mathematical value of a property: a list is a set of strings.
pub enum PropModel {
    String(Seq<u8>),
    Integer(u64),
    List(Set<Seq<u8>>),
}

/// The set of member strings a list holds.
pub open spec fn list_set(l: Seq<Vec<u8>>) -> Set<Seq<u8>>
    decreases l.len(),
{
    if l.len() == 0 {
        Set::empty()
    } else {
        list_set(l.drop_last()).insert(l.last()@)
    }
}

/// Membership in the denoted set is membership among the members' views.
pub proof fn lemma_list_set_index(l: Seq<Vec<u8>>)
    ensures
        forall|k: Seq<u8>|
            list_set(l).contains(k) <==> exists|i: int| 0 <= i < l.len() && l[i]@ == k,
    decreases l.len(),
{
    if l.len() > 0 {
        lemma_list_set_index(l.drop_last());
        let n = l.len() - 1;
        assert forall|k: Seq<u8>| list_set(l).contains(k) implies exists|i: int|
            0 <= i < l.len() && l[i]@ == k by {
            if k == l[n]@ {
                assert(l[n]@ == k);
            } else {
                assert(list_set(l.drop_last()).contains(k));
                let i = choose|i: int| 0 <= i < l.drop_last().len() && l.drop_last()[i]@ == k;
                assert(l[i]@ == k);
            }
        };
        assert forall|k: Seq<u8>| (exists|i: int| 0 <= i < l.len() && l[i]@ == k) implies list_set(
            l,
        ).contains(k) by {
            let i = choose|i: int| 0 <= i < l.len() && l[i]@ == k;
            if i < n {
                assert(l.drop_last()[i]@ == k);
                assert(list_set(l.drop_last()).contains(k));
            }
        };
    }
}

impl View for ObjectProperty {
    type V = PropModel;

    open spec fn view(&self) -> PropModel {
        match self {
            ObjectProperty::String(s) => PropModel::String(s@),
            ObjectProperty::Integer(i) => PropModel::Integer(*i),
            ObjectProperty::List(l) => PropModel::List(list_set(l@)),
        }
    }
}

impl ObjectProperty {
    /// A list representation never holds the same member twice.
    pub open spec fn wf(&self) -> bool {
        match self {
            ObjectProperty::List(l) => forall|i: int, j: int|
                0 <= i < j < l@.len() ==> l@[i]@ != l@[j]@,
            _ => true,
        }
    }
}

/// The set of member strings a list payload denotes: each entry is the
/// bytes up to a NUL terminator, and the run of NUL bytes after an entry
/// is padding, skipped without producing a member.
pub open spec fn spec_parse_list(payload: Seq<u8>) -> Option<Set<Seq<u8>>>
    decreases payload.len(),
    via spec_parse_list_dec
{
    if payload.len() == 0 {
        Some(Set::empty())
    } else {
        let np = nul_pos(payload);
        if np == payload.len() {
            None
        } else {
            let value = payload.take(np);
            if !is_utf8(value) {
                None
            } else {
                let rest0 = payload.skip(np);
                let rest = rest0.skip(nonzero_pos(rest0));
                match spec_parse_list(rest) {
                    None => None,
                    Some(s) => Some(s.insert(value)),
                }
            }
        }
    }
}

#[via_fn]
proof fn spec_parse_list_dec(payload: Seq<u8>) {
    if payload.len() != 0 {
        let np = nul_pos(payload);
        if np != payload.len() {
            crate::bytes::lemma_nul_pos_bounds(payload);
            let rest0 = payload.skip(np);
            crate::bytes::lemma_nonzero_pos_bounds(rest0);
            assert(rest0[0] == payload[np]);
            crate::bytes::lemma_nonzero_pos_bounds(rest0.skip(1));
        }
    }
}

/// The property value a payload of the given type tag denotes, `None`
/// where it is malformed.
pub open spec fn spec_parse_payload(ptype: u8, payload: Seq<u8>) -> Option<PropModel> {
    if ptype == 0x01 {
        let np = nul_pos(payload);
        if np == payload.len() {
            None
        } else if !is_utf8(payload.take(np)) {
            None
        } else {
            Some(PropModel::String(payload.take(np)))
        }
    } else if ptype == 0x02 {
        if payload.len() != 8 {
            None
        } else {
            Some(PropModel::Integer(le_val(payload) as u64))
        }
    } else if ptype == 0x03 {
        match spec_parse_list(payload) {
            None => None,
            Some(s) => Some(PropModel::List(s)),
        }
    } else {
        None
    }
}

/// Walks the property records of `data` from `off` up to `size`,
/// accumulating the denoted mapping; a later record for a name overrides
/// an earlier one. Each record is
/// `length:u16 | type:u8 | name_end_rel:u8 | name-bytes-to-NUL | payload`,
/// its payload spanning `[off + name_end_rel, off + length)`; any record
/// that would reach past `size`, lacks its NUL, breaks UTF-8 or carries an
/// unknown type makes the whole walk fail.
pub open spec fn spec_parse_props(
    data: Seq<u8>,
    size: int,
    off: int,
    acc: Map<Seq<u8>, PropModel>,
) -> Option<Map<Seq<u8>, PropModel>>
    decreases size - off,
{
    if off >= size {
        Some(acc)
    } else if off + 4 > size {
        None
    } else {
        let length = u16_at(data, off);
        let ptype = data[off + 2];
        let name_end_rel = data[off + 3] as int;
        if !(4 <= name_end_rel && name_end_rel <= length && off + length <= size) {
            None
        } else {
            let name_area = data.subrange(off + 4, off + name_end_rel);
            let np = nul_pos(name_area);
            if np == name_area.len() {
                None
            } else {
                let pname = name_area.take(np);
                if !is_utf8(pname) {
                    None
                } else {
                    match spec_parse_payload(
                        ptype,
                        data.subrange(off + name_end_rel, off + length),
                    ) {
                        None => None,
                        Some(p) => spec_parse_props(data, size, off + length, acc.insert(pname, p)),
                    }
                }
            }
        }
    }
}

/// What a serialized object denotes: `None` exactly where decoding must
/// fail with "invalid argument". The layout is
/// `size:u32 | name_length:u16 | properties_offset:u16 | handle_port:u64 |
/// task_group:u64 | name bytes | property records`, integers little-endian.
pub open spec fn spec_decode(data: Seq<u8>) -> Option<(ObjectModel, u64)> {
    if data.len() < 24 {
        None
    } else {
        let size = u32_at(data, 0);
        let name_length = u16_at(data, 4);
        let properties_offset = u16_at(data, 6);
        let handle_port = u64_at(data, 8);
        let task_group = u64_at(data, 16);
        if size > data.len() {
            None
        } else if 24 + name_length > properties_offset {
            None
        } else if 24 + name_length > data.len() {
            None
        } else if !is_utf8(data.subrange(24, 24 + name_length)) {
            None
        } else {
            match spec_parse_props(data, size, properties_offset, Map::empty()) {
                None => None,
                Some(props) => Some(
                    (
                        ObjectModel {
                            name: data.subrange(24, 24 + name_length),
                            handle_port: handle_port as u64,
                            properties: props,
                        },
                        task_group as u64,
                    ),
                ),
            }
        }
    }
}

/// A borrowed property value, as handed out by lookups.
#[derive(Debug)]
pub enum ObjectPropertyRef<'a> {
    String(&'a Vec<u8>),
    Integer(u64),
    List(&'a Vec<Vec<u8>>),
}

impl<'a> View for ObjectPropertyRef<'a> {
    type V = PropModel;

    open spec fn view(&self) -> PropModel {
        match self {
            ObjectPropertyRef::String(s) => PropModel::String(s@),
            ObjectPropertyRef::Integer(i) => PropModel::Integer(*i),
            ObjectPropertyRef::List(l) => PropModel::List(list_set(l@)),
        }
    }
}

/// The property table: name/value pairs with pairwise distinct names.
pub type ObjectProperties = Vec<(Vec<u8>, ObjectProperty)>;

/// The views of the entries of a property table.
pub open spec fn pairs_views(s: Seq<(Vec<u8>, ObjectProperty)>) -> Seq<(Seq<u8>, PropModel)> {
    s.map_values(|p: (Vec<u8>, ObjectProperty)| (p.0@, p.1@))
}

/// The mapping a sequence of name/value pairs denotes; a later entry for a
/// name overrides an earlier one.
pub open spec fn pairs_to_map(s: Seq<(Seq<u8>, PropModel)>) -> Map<Seq<u8>, PropModel>
    decreases s.len(),
{
    if s.len() == 0 {
        Map::empty()
    } else {
        pairs_to_map(s.drop_last()).insert(s.last().0, s.last().1)
    }
}

pub proof fn lemma_pairs_to_map_push(s: Seq<(Seq<u8>, PropModel)>, k: Seq<u8>, v: PropModel)
    ensures
        pairs_to_map(s.push((k, v))) == pairs_to_map(s).insert(k, v),
{
    assert(s.push((k, v)).drop_last() =~= s);
    assert(s.push((k, v)).last() == (k, v));
}

/// With pairwise distinct names, the denoted mapping holds exactly the
/// pairs of the sequence.
pub proof fn lemma_pairs_to_map_index(s: Seq<(Seq<u8>, PropModel)>)
    requires
        forall|i: int, j: int| 0 <= i < j < s.len() ==> s[i].0 != s[j].0,
    ensures
        forall|k: Seq<u8>|
            pairs_to_map(s).contains_key(k) <==> exists|i: int| 0 <= i < s.len() && s[i].0 == k,
        forall|i: int| 0 <= i < s.len() ==> pairs_to_map(s).contains_key(s[i].0)
            && pairs_to_map(s)[s[i].0] == s[i].1,
    decreases s.len(),
{
    if s.len() > 0 {
        lemma_pairs_to_map_index(s.drop_last());
        let n = s.len() - 1;
        assert forall|i: int| 0 <= i < s.len() implies pairs_to_map(s).contains_key(s[i].0)
            && pairs_to_map(s)[s[i].0] == s[i].1 by {
            if i < n {
                assert(s.drop_last()[i] == s[i]);
                assert(s[i].0 != s[n].0);
            }
        };
        assert forall|k: Seq<u8>| pairs_to_map(s).contains_key(k) implies exists|i: int|
            0 <= i < s.len() && s[i].0 == k by {
            if k != s[n].0 {
                assert(pairs_to_map(s.drop_last()).contains_key(k));
                let i = choose|i: int| 0 <= i < s.drop_last().len() && s.drop_last()[i].0 == k;
                assert(s[i].0 == k);
            }
        };
    }
}

/// Overriding the value stored under an existing name denotes the same
/// mapping as inserting that name afresh.
pub proof fn lemma_pairs_to_map_update(s: Seq<(Seq<u8>, PropModel)>, i: int, v: PropModel)
    requires
        forall|a: int, b: int| 0 <= a < b < s.len() ==> s[a].0 != s[b].0,
        0 <= i < s.len(),
    ensures
        pairs_to_map(s.update(i, (s[i].0, v))) =~= pairs_to_map(s).insert(s[i].0, v),
    decreases s.len(),
{
    let n = s.len() - 1;
    let t = s.update(i, (s[i].0, v));
    if i == n {
        assert(t.drop_last() =~= s.drop_last());
        assert(t.last() == (s[n].0, v));
    } else {
        assert(t.drop_last() =~= s.drop_last().update(i, (s[i].0, v)));
        assert(s.drop_last()[i] == s[i]);
        lemma_pairs_to_map_update(s.drop_last(), i, v);
        assert(t.last() == s.last());
        assert(s[i].0 != s[n].0);
    }
}

/// Is one of the members' byte strings equal to `value`?
fn list_contains(items: &Vec<Vec<u8>>, value: &[u8]) -> (r: bool)
    ensures
        r == exists|i: int| 0 <= i < items@.len() && items@[i]@ == value@,
{
    let n = items.len();
    let mut i: usize = 0;
    while i < n
        invariant
            n == items@.len(),
            i <= n,
            forall|k: int| 0 <= k < i ==> items@[k]@ != value@,
        decreases n - i,
    {
        if crate::bytes::bytes_eq(items[i].as_slice(), value) {
            return true;
        }
        i = i + 1;
    }
    false
}

/// Parses the list payload `data[start..end]` into its distinct member
/// strings, in order of first appearance.
fn parse_list(data: &[u8], start: usize, end: usize) -> (r: Result<Vec<Vec<u8>>, Error>)
    requires
        start <= end <= data@.len(),
    ensures
        match r {
            Ok(l) => {
                &&& spec_parse_list(data@.subrange(start as int, end as int)) == Some(list_set(l@))
                &&& forall|i: int, j: int| 0 <= i < j < l@.len() ==> l@[i]@ != l@[j]@
            },
            Err(e) => spec_parse_list(data@.subrange(start as int, end as int)) is None && e.code()
                == 22 && e.wf(),
        },
{
    let ghost whole = data@.subrange(start as int, end as int);
    let mut items: Vec<Vec<u8>> = Vec::new();
    let mut pos: usize = start;
    proof {
        assert(list_set(items@) =~= Set::<Seq<u8>>::empty());
        if spec_parse_list(whole) is Some {
            assert(spec_parse_list(whole)->Some_0.union(list_set(items@)) =~= spec_parse_list(
                whole,
            )->Some_0);
        }
    }
    while pos < end
        invariant
            start <= pos <= end <= data@.len(),
            whole == data@.subrange(start as int, end as int),
            forall|i: int, j: int| 0 <= i < j < items@.len() ==> items@[i]@ != items@[j]@,
            match spec_parse_list(data@.subrange(pos as int, end as int)) {
                None => spec_parse_list(whole) is None,
                Some(s) => spec_parse_list(whole) == Some(s.union(list_set(items@))),
            },
        decreases end - pos,
    {
        let ghost rem = data@.subrange(pos as int, end as int);
        let npr = match crate::bytes::find_nul(data, pos, end) {
            None => {
                proof {
                    assert(spec_parse_list(rem) is None);
                }
                return Err(Error::from_errno(EINVAL));
            },
            Some(p) => p,
        };
        let vend = pos + npr;
        proof {
            crate::bytes::lemma_nul_pos_bounds(rem);
            assert(rem.take(npr as int) =~= data@.subrange(pos as int, vend as int));
        }
        let value = crate::bytes::copy_range(data, pos, vend);
        if !crate::utf8::is_utf8_range(data, pos, vend) {
            proof {
                assert(spec_parse_list(rem) is None);
            }
            return Err(Error::from_errno(EINVAL));
        }
        let nz = crate::bytes::find_nonzero(data, vend, end);
        proof {
            let rest0 = rem.skip(npr as int);
            assert(rest0 =~= data@.subrange(vend as int, end as int));
            assert(rest0[0] == rem[npr as int]);
            crate::bytes::lemma_nonzero_pos_bounds(rest0.skip(1));
            assert(nonzero_pos(rest0) >= 1);
            assert(nz > pos);
            assert(rest0.skip(nonzero_pos(rest0)) =~= data@.subrange(nz as int, end as int));
            assert(spec_parse_list(rem) == match spec_parse_list(
                data@.subrange(nz as int, end as int),
            ) {
                None => None::<Set<Seq<u8>>>,
                Some(s) => Some(s.insert(value@)),
            });
        }
        let ghost old_items = items@;
        if !list_contains(&items, value.as_slice()) {
            items.push(value);
            proof {
                assert(items@.drop_last() =~= old_items);
            }
        } else {
            proof {
                lemma_list_set_index(old_items);
            }
        }
        proof {
            if spec_parse_list(data@.subrange(nz as int, end as int)) is Some {
                let s2 = spec_parse_list(data@.subrange(nz as int, end as int))->Some_0;
                assert(s2.insert(value@).union(list_set(old_items)) =~= s2.union(
                    list_set(items@),
                ));
            }
        }
        pos = nz;
    }
    proof {
        assert(data@.subrange(pos as int, end as int).len() == 0);
        let s_end = spec_parse_list(data@.subrange(pos as int, end as int));
        assert(s_end == Some(Set::<Seq<u8>>::empty()));
        assert(Set::<Seq<u8>>::empty().union(list_set(items@)) =~= list_set(items@));
    }
    Ok(items)
}

/// Inserts a property into a table with distinct names, overriding an
/// existing entry of the same name in place.
fn props_insert(props: &mut Vec<(Vec<u8>, ObjectProperty)>, key: Vec<u8>, val: ObjectProperty)
    requires
        forall|i: int, j: int|
            0 <= i < j < old(props)@.len() ==> old(props)@[i].0@ != old(props)@[j].0@,
        forall|i: int| 0 <= i < old(props)@.len() ==> old(props)@[i].1.wf(),
        val.wf(),
    ensures
        forall|i: int, j: int|
            0 <= i < j < final(props)@.len() ==> final(props)@[i].0@ != final(props)@[j].0@,
        forall|i: int| 0 <= i < final(props)@.len() ==> final(props)@[i].1.wf(),
        pairs_to_map(pairs_views(final(props)@)) == pairs_to_map(pairs_views(old(props)@)).insert(
            key@,
            val@,
        ),
{
    let ghost s0 = props@;
    let ghost kv = key@;
    let ghost vv = val@;
    let ghost sv = pairs_views(s0);
    proof {
        assert forall|a: int| 0 <= a < sv.len() implies sv[a] == (s0[a].0@, s0[a].1@) by {};
    }
    let n = props.len();
    let mut i: usize = 0;
    while i < n
        invariant
            props@ == s0,
            old(props)@ == s0,
            n == s0.len(),
            i <= n,
            kv == key@,
            vv == val@,
            val.wf(),
            forall|a: int, b: int| 0 <= a < b < s0.len() ==> s0[a].0@ != s0[b].0@,
            forall|a: int| 0 <= a < s0.len() ==> s0[a].1.wf(),
            forall|k: int| 0 <= k < i ==> s0[k].0@ != key@,
        decreases n - i,
    {
        if crate::bytes::bytes_eq(props[i].0.as_slice(), key.as_slice()) {
            props.remove(i);
            let ghost mid = props@;
            props.insert(i, (key, val));
            proof {
                let sv = pairs_views(s0);
                assert forall|a: int| 0 <= a < sv.len() implies sv[a] == (s0[a].0@, s0[a].1@) by {};
                assert forall|a: int, b: int| 0 <= a < b < sv.len() implies sv[a].0 != sv[b].0 by {
                    assert(sv[a] == (s0[a].0@, s0[a].1@));
                    assert(sv[b] == (s0[b].0@, s0[b].1@));
                };
                assert(mid == s0.remove(i as int));
                assert forall|x: int| 0 <= x < props@.len() && x != i implies props@[x] == s0[x] by {
                    if x < i {
                        assert(mid[x] == s0[x]);
                    } else {
                        assert(mid[x - 1] == s0[x]);
                    }
                };
                assert(props@[i as int].0@ == kv && props@[i as int].1@ == vv);
                assert(props@[i as int].1.wf());
                assert(pairs_views(props@) =~= sv.update(i as int, (sv[i as int].0, vv)));
                assert(sv[i as int].0 == kv);
                lemma_pairs_to_map_update(sv, i as int, vv);
                assert forall|a: int, b: int|
                    0 <= a < b < props@.len() implies props@[a].0@ != props@[b].0@ by {
                    assert(s0[a].0@ != s0[b].0@);
                };
                assert forall|a: int| 0 <= a < props@.len() implies props@[a].1.wf() by {
                    if a != i {
                        assert(props@[a] == s0[a]);
                    }
                };
            }
            return ;
        }
        i = i + 1;
    }
    props.push((key, val));
    proof {
        assert(pairs_views(props@) =~= pairs_views(s0).push((kv, vv)));
        lemma_pairs_to_map_push(pairs_views(s0), kv, vv);
        assert forall|a: int, b: int|
            0 <= a < b < props@.len() implies props@[a].0@ != props@[b].0@ by {
            if b < s0.len() {
                assert(props@[a] == s0[a]);
                assert(props@[b] == s0[b]);
            } else {
                assert(props@[a] == s0[a]);
            }
        };
    }
}

impl PMBusObject {
    /// Decodes the serialized form of an object, yielding the object and
    /// the task-group identifier carried beside it for authorization.
    /// Succeeds exactly where `spec_decode` denotes a value; every
    /// malformed input — truncated, out-of-range, badly encoded or of
    /// unknown property type — fails with "invalid argument".
    pub fn deserialize(data: &[u8]) -> (r: Result<(PMBusObject, u64), Error>)
        ensures
            match r {
                Ok((obj, tg)) => spec_decode(data@) == Some((obj@, tg)) && obj.wf(),
                Err(e) => spec_decode(data@) is None && e.code() == 22 && e.wf(),
            },
    {
        let dlen = data.len();
        if dlen < 24 {
            return Err(Error::from_errno(EINVAL));
        }
        proof {
            crate::bytes::lemma_pow256_values();
            crate::bytes::lemma_le_val_bound(data@.subrange(0, 4));
            crate::bytes::lemma_le_val_bound(data@.subrange(8, 16));
            crate::bytes::lemma_le_val_bound(data@.subrange(16, 24));
        }
        let size = crate::bytes::read_u32_le(data, 0) as usize;
        let name_length = crate::bytes::read_u16_le(data, 4) as usize;
        let properties_offset = crate::bytes::read_u16_le(data, 6) as usize;
        let handle_port = crate::bytes::read_u64_le(data, 8);
        let task_group = crate::bytes::read_u64_le(data, 16);
        if size > dlen {
            return Err(Error::from_errno(EINVAL));
        }
        if 24 + name_length > properties_offset {
            return Err(Error::from_errno(EINVAL));
        }
        if 24 + name_length > dlen {
            return Err(Error::from_errno(EINVAL));
        }
        if !crate::utf8::is_utf8_range(data, 24, 24 + name_length) {
            return Err(Error::from_errno(EINVAL));
        }
        let name = crate::bytes::copy_range(data, 24, 24 + name_length);
        let mut properties: ObjectProperties = Vec::new();
        let mut off = properties_offset;
        proof {
            assert(pairs_views(properties@) =~= Seq::<(Seq<u8>, PropModel)>::empty());
            assert(pairs_to_map(pairs_views(properties@)) =~= Map::<Seq<u8>, PropModel>::empty());
        }
        while off < size
            invariant
                dlen == data@.len(),
                size <= dlen,
                size as int == u32_at(data@, 0),
                forall|i: int, j: int|
                    0 <= i < j < properties@.len() ==> properties@[i].0@ != properties@[j].0@,
                forall|i: int| 0 <= i < properties@.len() ==> properties@[i].1.wf(),
                spec_parse_props(
                    data@,
                    size as int,
                    off as int,
                    pairs_to_map(pairs_views(properties@)),
                ) == spec_parse_props(
                    data@,
                    size as int,
                    properties_offset as int,
                    Map::empty(),
                ),
                match spec_parse_props(
                    data@,
                    size as int,
                    properties_offset as int,
                    Map::empty(),
                ) {
                    None => spec_decode(data@) is None,
                    Some(m) => spec_decode(data@) == Some(
                        (
                            ObjectModel { name: name@, handle_port, properties: m },
                            task_group,
                        ),
                    ),
                },
            decreases size - off,
        {
            let ghost cur = pairs_to_map(pairs_views(properties@));
            if size - off < 4 {
                return Err(Error::from_errno(EINVAL));
            }
            let length = crate::bytes::read_u16_le(data, off) as usize;
            let ptype = data[off + 2];
            let name_end_rel = data[off + 3] as usize;
            if !(4 <= name_end_rel && name_end_rel <= length && length <= size - off) {
                return Err(Error::from_errno(EINVAL));
            }
            let data_start = off + name_end_rel;
            let data_end = off + length;
            let ghost name_area = data@.subrange(off + 4, data_start as int);
            let ghost payload = data@.subrange(data_start as int, data_end as int);
            let npr = match crate::bytes::find_nul(data, off + 4, data_start) {
                None => {
                    return Err(Error::from_errno(EINVAL));
                },
                Some(p) => p,
            };
            proof {
                crate::bytes::lemma_nul_pos_bounds(name_area);
                assert(name_area.take(npr as int) =~= data@.subrange(off + 4, off + 4 + npr));
            }
            if !crate::utf8::is_utf8_range(data, off + 4, off + 4 + npr) {
                return Err(Error::from_errno(EINVAL));
            }
            let pname = crate::bytes::copy_range(data, off + 4, off + 4 + npr);
            let prop: ObjectProperty = if ptype == 0x01 {
                let vnp = match crate::bytes::find_nul(data, data_start, data_end) {
                    None => {
                        return Err(Error::from_errno(EINVAL));
                    },
                    Some(p) => p,
                };
                proof {
                    crate::bytes::lemma_nul_pos_bounds(payload);
                    assert(payload.take(vnp as int) =~= data@.subrange(
                        data_start as int,
                        data_start + vnp,
                    ));
                }
                if !crate::utf8::is_utf8_range(data, data_start, data_start + vnp) {
                    return Err(Error::from_errno(EINVAL));
                }
                ObjectProperty::String(crate::bytes::copy_range(data, data_start, data_start + vnp))
            } else if ptype == 0x02 {
                if length - name_end_rel != 8 {
                    return Err(Error::from_errno(EINVAL));
                }
                proof {
                    assert(payload =~= data@.subrange(data_start as int, data_start + 8));
                    crate::bytes::lemma_le_val_bound(payload);
                    crate::bytes::lemma_pow256_values();
                }
                ObjectProperty::Integer(crate::bytes::read_u64_le(data, data_start))
            } else if ptype == 0x03 {
                match parse_list(data, data_start, data_end) {
                    Ok(l) => ObjectProperty::List(l),
                    Err(e) => {
                        return Err(e);
                    },
                }
            } else {
                return Err(Error::from_errno(EINVAL));
            };
            proof {
                assert(spec_parse_payload(ptype, payload) == Some(prop@));
                assert(prop.wf());
            }
            props_insert(&mut properties, pname, prop);
            proof {
                assert(pairs_to_map(pairs_views(properties@)) == cur.insert(
                    name_area.take(npr as int),
                    prop@,
                ));
                assert(spec_parse_props(data@, size as int, off as int, cur)
                    == spec_parse_props(
                    data@,
                    size as int,
                    data_end as int,
                    cur.insert(name_area.take(npr as int), prop@),
                ));
            }
            off = data_end;
        }
        proof {
            assert(spec_parse_props(
                data@,
                size as int,
                off as int,
                pairs_to_map(pairs_views(properties@)),
            ) == Some(pairs_to_map(pairs_views(properties@))));
        }
        let obj = PMBusObject { properties, name, handle_port };
        Ok((obj, task_group))
    }
}

/// A published object: a UTF-8 name, a property table with distinct
/// property names, and the port the publisher exposes for interaction.
#[derive(Debug)]
pub struct PMBusObject {
    pub properties: ObjectProperties,
    pub name: Vec<u8>,
    pub handle_port: u64,
}

/// The mathematical value of a published object.
pub struct ObjectModel {
    pub name: Seq<u8>,
    pub handle_port: u64,
    pub properties: Map<Seq<u8>, PropModel>,
}

impl View for PMBusObject {
    type V = ObjectModel;

    open spec fn view(&self) -> ObjectModel {
        ObjectModel {
            name: self.name@,
            handle_port: self.handle_port,
            properties: pairs_to_map(pairs_views(self.properties@)),
        }
    }
}

impl PMBusObject {
    /// Property names are pairwise distinct and every list is duplicate-free.
    pub open spec fn wf(&self) -> bool {
        &&& forall|i: int, j: int|
            0 <= i < j < self.properties@.len() ==> self.properties@[i].0@ != self.properties@[j].0@
        &&& forall|i: int| 0 <= i < self.properties@.len() ==> self.properties@[i].1.wf()
    }

    /// A fresh object with the given name, no properties, and no handle
    /// port yet.
    pub fn new(name: Vec<u8>) -> (r: PMBusObject)
        ensures
            r@.name == name@,
            r@.handle_port == 0,
            r@.properties == Map::<Seq<u8>, PropModel>::empty(),
            r.wf(),
    {
        let r = PMBusObject { properties: Vec::new(), name, handle_port: 0 };
        proof {
            assert(pairs_views(r.properties@) =~= Seq::<(Seq<u8>, PropModel)>::empty());
        }
        r
    }

    /// Looks the property table up by name.
    pub fn get_property(&self, property_name: &[u8]) -> (r: Option<ObjectPropertyRef>)
        requires
            self.wf(),
        ensures
            match r {
                Some(p) => self@.properties.contains_key(property_name@) && p@ == self@.properties[property_name@],
                None => !self@.properties.contains_key(property_name@),
            },
    {
        proof {
            lemma_pairs_to_map_index(pairs_views(self.properties@));
        }
        let n = self.properties.len();
        let mut i: usize = 0;
        while i < n
            invariant
                n == self.properties@.len(),
                i <= n,
                self.wf(),
                forall|k: int| 0 <= k < i ==> self.properties@[k].0@ != property_name@,
            decreases n - i,
        {
            if crate::bytes::bytes_eq(self.properties[i].0.as_slice(), property_name) {
                proof {
                    lemma_pairs_to_map_index(pairs_views(self.properties@));
                    assert(pairs_views(self.properties@)[i as int].0 == property_name@);
                }
                let p = &self.properties[i].1;
                return Some(
                    match p {
                        ObjectProperty::String(s) => ObjectPropertyRef::String(s),
                        ObjectProperty::Integer(v) => ObjectPropertyRef::Integer(*v),
                        ObjectProperty::List(l) => ObjectPropertyRef::List(l),
                    },
                );
            }
            i = i + 1;
        }
        proof {
            lemma_pairs_to_map_index(pairs_views(self.properties@));
            assert forall|k: int| 0 <= k < self.properties@.len() implies pairs_views(
                self.properties@,
            )[k].0 != property_name@ by {
                assert(pairs_views(self.properties@)[k].0 == self.properties@[k].0@);
            };
        }
        None
    }
}


/// May `s` stand as a NUL-terminated string on the wire: valid UTF-8
/// with no embedded NUL byte.
pub open spec fn str_ok(s: Seq<u8>) -> bool {
    is_utf8(s) && forall|i: int| 0 <= i < s.len() ==> s[i] != 0
}

/// The wire type tag of a property.
pub open spec fn prop_type_tag(p: ObjectProperty) -> u8 {
    match p {
        ObjectProperty::String(_) => 0x01,
        ObjectProperty::Integer(_) => 0x02,
        ObjectProperty::List(_) => 0x03,
    }
}

/// How many payload bytes a list's members take: each member plus its
/// NUL terminator.
pub open spec fn list_payload_len(l: Seq<Vec<u8>>) -> int
    decreases l.len(),
{
    if l.len() == 0 {
        0
    } else {
        l[0]@.len() as int + 1 + list_payload_len(l.skip(1))
    }
}

/// How many payload bytes a property takes on the wire.
pub open spec fn prop_payload_len(p: ObjectProperty) -> int {
    match p {
        ObjectProperty::String(s) => s@.len() as int + 1,
        ObjectProperty::Integer(_) => 8,
        ObjectProperty::List(l) => list_payload_len(l@),
    }
}

/// The length of the record a name/value pair takes: the four-byte record
/// header, the NUL-terminated name, the payload.
pub open spec fn record_len(k: Seq<u8>, p: ObjectProperty) -> int {
    5 + k.len() as int + prop_payload_len(p)
}

/// How many bytes a property table takes on the wire.
pub open spec fn records_len(s: Seq<(Vec<u8>, ObjectProperty)>) -> int
    decreases s.len(),
{
    if s.len() == 0 {
        0
    } else {
        record_len(s[0].0@, s[0].1) + records_len(s.skip(1))
    }
}

impl ObjectProperty {
    /// Can this value be put on the wire and read back: strings are
    /// NUL-free UTF-8, and list members are additionally non-empty and
    /// pairwise distinct, since padding NULs between members are skipped
    /// when a list is read back.
    pub open spec fn encodable(&self) -> bool {
        match self {
            ObjectProperty::String(s) => str_ok(s@),
            ObjectProperty::Integer(_) => true,
            ObjectProperty::List(l) => self.wf() && forall|i: int|
                0 <= i < l@.len() ==> str_ok(#[trigger] l@[i]@) && l@[i]@.len() >= 1,
        }
    }
}

impl PMBusObject {
    /// Can this object be put on the wire and read back: well-formed, a
    /// UTF-8 name, encodable properties under NUL-free UTF-8 names, and
    /// every length within its wire field.
    pub open spec fn encodable(&self) -> bool {
        &&& self.wf()
        &&& is_utf8(self.name@)
        &&& 24 + self.name@.len() <= 0xFFFF
        &&& forall|i: int|
            0 <= i < self.properties@.len() ==> {
                &&& str_ok(#[trigger] self.properties@[i].0@)
                &&& self.properties@[i].1.encodable()
                &&& 5 + self.properties@[i].0@.len() <= 0xFF
                &&& record_len(self.properties@[i].0@, self.properties@[i].1) <= 0xFFFF
            }
        &&& 24 + self.name@.len() + records_len(self.properties@) <= 0xFFFF_FFFF
    }
}

/// The wire form of a list payload: the members back to back, each with
/// its NUL terminator.
pub open spec fn enc_list(l: Seq<Vec<u8>>) -> Seq<u8>
    decreases l.len(),
{
    if l.len() == 0 {
        Seq::empty()
    } else {
        l[0]@ + seq![0u8] + enc_list(l.skip(1))
    }
}

/// The wire form of a property's payload.
pub open spec fn enc_prop_payload(p: ObjectProperty) -> Seq<u8> {
    match p {
        ObjectProperty::String(s) => s@ + seq![0u8],
        ObjectProperty::Integer(v) => le_bytes(v as int, 8),
        ObjectProperty::List(l) => enc_list(l@),
    }
}

/// The wire form of one property record.
pub open spec fn enc_record(k: Seq<u8>, p: ObjectProperty) -> Seq<u8> {
    le_bytes(record_len(k, p), 2) + seq![prop_type_tag(p)] + seq![(5 + k.len()) as u8] + k
        + seq![0u8] + enc_prop_payload(p)
}

/// The wire form of a property table.
pub open spec fn enc_records(s: Seq<(Vec<u8>, ObjectProperty)>) -> Seq<u8>
    decreases s.len(),
{
    if s.len() == 0 {
        Seq::empty()
    } else {
        enc_record(s[0].0@, s[0].1) + enc_records(s.skip(1))
    }
}

/// The full wire form of an object published to the given task group.
pub open spec fn spec_encode(obj: PMBusObject, task_group: u64) -> Seq<u8> {
    le_bytes(24 + obj.name@.len() as int + records_len(obj.properties@), 4) + le_bytes(
        obj.name@.len() as int,
        2,
    ) + le_bytes(24 + obj.name@.len() as int, 2) + le_bytes(obj.handle_port as int, 8) + le_bytes(
        task_group as int,
        8,
    ) + obj.name@ + enc_records(obj.properties@)
}

pub proof fn lemma_list_payload_len_nonneg(l: Seq<Vec<u8>>)
    ensures
        list_payload_len(l) >= 0,
    decreases l.len(),
{
    if l.len() > 0 {
        lemma_list_payload_len_nonneg(l.skip(1));
    }
}

pub proof fn lemma_prop_payload_len_nonneg(p: ObjectProperty)
    ensures
        prop_payload_len(p) >= 0,
{
    match p {
        ObjectProperty::List(l) => lemma_list_payload_len_nonneg(l@),
        _ => (),
    }
}

pub proof fn lemma_enc_list_len(l: Seq<Vec<u8>>)
    ensures
        enc_list(l).len() == list_payload_len(l),
    decreases l.len(),
{
    if l.len() > 0 {
        lemma_enc_list_len(l.skip(1));
    }
}

pub proof fn lemma_enc_record_len(k: Seq<u8>, p: ObjectProperty)
    ensures
        enc_record(k, p).len() == record_len(k, p),
{
    crate::bytes::lemma_le_bytes_len(record_len(k, p), 2);
    match p {
        ObjectProperty::Integer(v) => crate::bytes::lemma_le_bytes_len(v as int, 8),
        ObjectProperty::List(l) => lemma_enc_list_len(l@),
        _ => (),
    }
}

pub proof fn lemma_enc_records_len(s: Seq<(Vec<u8>, ObjectProperty)>)
    ensures
        enc_records(s).len() == records_len(s),
    decreases s.len(),
{
    if s.len() > 0 {
        lemma_enc_record_len(s[0].0@, s[0].1);
        lemma_enc_records_len(s.skip(1));
    }
}

pub proof fn lemma_records_len_nonneg(s: Seq<(Vec<u8>, ObjectProperty)>)
    ensures
        records_len(s) >= 0,
    decreases s.len(),
{
    if s.len() > 0 {
        lemma_prop_payload_len_nonneg(s[0].1);
        lemma_records_len_nonneg(s.skip(1));
    }
}

/// The mapping the decoder accumulates walking a table front to back.
pub open spec fn fold_insert(
    acc: Map<Seq<u8>, PropModel>,
    s: Seq<(Vec<u8>, ObjectProperty)>,
) -> Map<Seq<u8>, PropModel>
    decreases s.len(),
{
    if s.len() == 0 {
        acc
    } else {
        fold_insert(acc.insert(s[0].0@, s[0].1@), s.skip(1))
    }
}

pub proof fn lemma_fold_insert_push(
    acc: Map<Seq<u8>, PropModel>,
    s: Seq<(Vec<u8>, ObjectProperty)>,
    e: (Vec<u8>, ObjectProperty),
)
    ensures
        fold_insert(acc, s.push(e)) == fold_insert(acc, s).insert(e.0@, e.1@),
    decreases s.len(),
{
    if s.len() == 0 {
        assert(s.push(e)[0] == e);
        assert(s.push(e).skip(1) =~= Seq::<(Vec<u8>, ObjectProperty)>::empty());
        assert(fold_insert(acc.insert(e.0@, e.1@), Seq::<(Vec<u8>, ObjectProperty)>::empty())
            == acc.insert(e.0@, e.1@));
        assert(fold_insert(acc, s.push(e)) == fold_insert(
            acc.insert(e.0@, e.1@),
            s.push(e).skip(1),
        ));
        assert(fold_insert(acc, s) == acc);
    } else {
        assert(s.push(e)[0] == s[0]);
        assert(s.push(e).skip(1) =~= s.skip(1).push(e));
        lemma_fold_insert_push(acc.insert(s[0].0@, s[0].1@), s.skip(1), e);
    }
}

/// Walking a table front to back, inserting later entries over earlier
/// ones, denotes the same mapping as the table itself.
pub proof fn lemma_fold_insert_is_pairs_to_map(s: Seq<(Vec<u8>, ObjectProperty)>)
    ensures
        fold_insert(Map::empty(), s) == pairs_to_map(pairs_views(s)),
    decreases s.len(),
{
    if s.len() == 0 {
        assert(pairs_views(s) =~= Seq::<(Seq<u8>, PropModel)>::empty());
    } else {
        let t = s.drop_last();
        let e = s.last();
        assert(s =~= t.push(e));
        lemma_fold_insert_is_pairs_to_map(t);
        lemma_fold_insert_push(Map::empty(), t, e);
        assert(pairs_views(t.push(e)) =~= pairs_views(t).push((e.0@, e.1@)));
        lemma_pairs_to_map_push(pairs_views(t), e.0@, e.1@);
    }
}


pub proof fn lemma_parse_string_payload(s: Seq<u8>)
    requires
        str_ok(s),
    ensures
        spec_parse_payload(0x01, s + seq![0u8]) == Some(PropModel::String(s)),
{
    let payload = s + seq![0u8];
    assert(payload.len() == s.len() + 1);
    assert forall|k: int| 0 <= k < s.len() implies payload[k] != 0 by {
        assert(payload[k] == s[k]);
    };
    assert(payload[s.len() as int] == 0);
    crate::bytes::lemma_nul_pos_is(payload, s.len() as int);
    assert(payload.take(s.len() as int) =~= s);
}

pub proof fn lemma_parse_int_payload(v: u64)
    ensures
        spec_parse_payload(0x02, le_bytes(v as int, 8)) == Some(PropModel::Integer(v)),
{
    crate::bytes::lemma_le_bytes_len(v as int, 8);
    crate::bytes::lemma_pow256_values();
    crate::bytes::lemma_le_roundtrip(v as int, 8);
}

pub proof fn lemma_parse_enc_list(l: Seq<Vec<u8>>)
    requires
        forall|i: int| 0 <= i < l.len() ==> str_ok(#[trigger] l[i]@) && l[i]@.len() >= 1,
    ensures
        spec_parse_list(enc_list(l)) == Some(list_set(l)),
    decreases l.len(),
{
    if l.len() == 0 {
        assert(list_set(l) =~= Set::<Seq<u8>>::empty());
    } else {
        let v0 = l[0]@;
        let vl = v0.len() as int;
        let tail = enc_list(l.skip(1));
        let payload = v0 + seq![0u8] + tail;
        assert(enc_list(l) == payload);
        lemma_enc_list_len(l.skip(1));
        lemma_list_payload_len_nonneg(l.skip(1));
        assert(payload.len() == vl + 1 + tail.len());
        assert forall|k: int| 0 <= k < vl implies payload[k] != 0 by {
            assert(payload[k] == v0[k]);
        };
        assert(payload[vl] == 0);
        crate::bytes::lemma_nul_pos_is(payload, vl);
        assert(payload.take(vl) =~= v0);
        let rest0 = payload.skip(vl);
        assert(rest0.len() == 1 + tail.len());
        assert(rest0[0] == 0);
        if l.len() == 1 {
            assert(l.skip(1) =~= Seq::<Vec<u8>>::empty());
            assert(tail.len() == 0);
            crate::bytes::lemma_nonzero_pos_is(rest0, 1);
            let rest = rest0.skip(nonzero_pos(rest0));
            assert(rest =~= Seq::<u8>::empty());
            assert(spec_parse_list(rest) == Some(Set::<Seq<u8>>::empty()));
            assert(spec_parse_list(enc_list(l)) == Some(Set::<Seq<u8>>::empty().insert(v0)));
            assert(list_set(l.drop_last()) =~= Set::<Seq<u8>>::empty());
            assert(l.last()@ == v0);
        } else {
            assert(l.skip(1).len() >= 1);
            assert(l.skip(1)[0]@ == l[1]@);
            assert(l[1]@.len() >= 1);
            assert(tail[0] == l.skip(1)[0]@[0]);
            assert(tail[0] != 0);
            assert(rest0[1] == tail[0]);
            crate::bytes::lemma_nonzero_pos_is(rest0, 1);
            let rest = rest0.skip(nonzero_pos(rest0));
            assert(rest =~= tail);
            assert forall|i: int|
                0 <= i < l.skip(1).len() implies str_ok(#[trigger] l.skip(1)[i]@) && l.skip(
                1,
            )[i]@.len() >= 1 by {
                assert(l.skip(1)[i] == l[i + 1]);
            };
            lemma_parse_enc_list(l.skip(1));
            assert(spec_parse_list(enc_list(l)) == Some(list_set(l.skip(1)).insert(v0)));
            lemma_list_set_index(l);
            lemma_list_set_index(l.skip(1));
            assert(list_set(l.skip(1)).insert(v0) =~= list_set(l)) by {
                assert forall|x: Seq<u8>|
                    list_set(l.skip(1)).insert(v0).contains(x) implies list_set(l).contains(x) by {
                    if x == v0 {
                        assert(l[0]@ == x);
                    } else {
                        let i = choose|i: int| 0 <= i < l.skip(1).len() && l.skip(1)[i]@ == x;
                        assert(l[i + 1]@ == x);
                    }
                };
                assert forall|x: Seq<u8>|
                    list_set(l).contains(x) implies list_set(l.skip(1)).insert(v0).contains(x) by {
                    let i = choose|i: int| 0 <= i < l.len() && l[i]@ == x;
                    if i == 0 {
                        assert(x == v0);
                    } else {
                        assert(l.skip(1)[i - 1]@ == x);
                        assert(list_set(l.skip(1)).contains(x));
                    }
                };
            };
        }
    }
}

/// Walking encoded records from `off` up to `size` recovers exactly the
/// encoded table, folded over the accumulator.
pub proof fn lemma_parse_props_of_enc(
    data: Seq<u8>,
    size: int,
    off: int,
    s: Seq<(Vec<u8>, ObjectProperty)>,
    acc: Map<Seq<u8>, PropModel>,
)
    requires
        0 <= off,
        off + records_len(s) == size,
        size <= data.len(),
        data.subrange(off, size) == enc_records(s),
        forall|i: int|
            0 <= i < s.len() ==> {
                &&& str_ok(#[trigger] s[i].0@)
                &&& s[i].1.encodable()
                &&& 5 + s[i].0@.len() <= 0xFF
                &&& record_len(s[i].0@, s[i].1) <= 0xFFFF
            },
    ensures
        spec_parse_props(data, size, off, acc) == Some(fold_insert(acc, s)),
    decreases s.len(),
{
    if s.len() == 0 {
        assert(off >= size);
    } else {
        let k = s[0].0@;
        let p = s[0].1;
        let rl = record_len(k, p);
        let er = enc_record(k, p);
        let ner = 5 + k.len() as int;
        lemma_enc_record_len(k, p);
        lemma_enc_records_len(s.skip(1));
        lemma_records_len_nonneg(s.skip(1));
        lemma_prop_payload_len_nonneg(p);
        assert(records_len(s) == rl + records_len(s.skip(1)));
        assert(enc_records(s) == er + enc_records(s.skip(1)));
        assert forall|x: int| off <= x < size implies data[x] == enc_records(s)[x - off] by {
            assert(data.subrange(off, size)[x - off] == data[x]);
        };
        assert forall|x: int| 0 <= x < rl implies enc_records(s)[x] == er[x] by {};
        crate::bytes::lemma_le_bytes_len(rl, 2);
        crate::bytes::lemma_pow256_values();
        assert(data.subrange(off, off + 2) =~= le_bytes(rl, 2));
        crate::bytes::lemma_le_roundtrip(rl, 2);
        assert(u16_at(data, off) == rl);
        assert(er[2] == prop_type_tag(p));
        assert(data[off + 2] == prop_type_tag(p));
        assert(er[3] == (ner as u8));
        assert(data[off + 3] == (ner as u8));
        assert((ner as u8) as int == ner);
        assert forall|x: int| 0 <= x < k.len() implies er[4 + x] == k[x] by {};
        assert(er[4 + k.len() as int] == 0);
        let name_area = data.subrange(off + 4, off + ner);
        assert(name_area.len() == k.len() + 1);
        assert forall|x: int| 0 <= x < k.len() implies name_area[x] == k[x] by {
            assert(name_area[x] == data[off + 4 + x]);
            assert(data[off + 4 + x] == er[4 + x]);
        };
        assert(name_area[k.len() as int] == data[off + 4 + k.len() as int]);
        assert(name_area[k.len() as int] == 0);
        crate::bytes::lemma_nul_pos_is(name_area, k.len() as int);
        assert(name_area.take(k.len() as int) =~= k);
        let payload = data.subrange(off + ner, off + rl);
        assert forall|x: int| 0 <= x < prop_payload_len(p) implies payload[x] == enc_prop_payload(
            p,
        )[x] by {
            assert(payload[x] == data[off + ner + x]);
            assert(data[off + ner + x] == er[ner + x]);
            assert(er[ner + x] == enc_prop_payload(p)[x]);
        };
        match p {
            ObjectProperty::String(v) => {
                assert(payload =~= v@ + seq![0u8]);
                lemma_parse_string_payload(v@);
            },
            ObjectProperty::Integer(v) => {
                crate::bytes::lemma_le_bytes_len(v as int, 8);
                assert(payload =~= le_bytes(v as int, 8));
                lemma_parse_int_payload(v);
            },
            ObjectProperty::List(l) => {
                lemma_enc_list_len(l@);
                assert(payload =~= enc_list(l@));
                lemma_parse_enc_list(l@);
            },
        }
        assert(spec_parse_payload(prop_type_tag(p), payload) == Some(p@));
        assert(spec_parse_props(data, size, off, acc) == spec_parse_props(
            data,
            size,
            off + rl,
            acc.insert(k, p@),
        ));
        assert(data.subrange(off + rl, size) =~= enc_records(s.skip(1))) by {
            assert forall|x: int|
                off + rl <= x < size implies data[x] == enc_records(s.skip(1))[x - off - rl] by {
                assert(data[x] == enc_records(s)[x - off]);
            };
        };
        lemma_parse_props_of_enc(data, size, off + rl, s.skip(1), acc.insert(k, p@));
    }
}

/// Decoding the serialized form of any encodable object reproduces its
/// name, handle port, task-group id and every property exactly.
pub proof fn lemma_encode_decode_round_trip(obj: PMBusObject, task_group: u64)
    requires
        obj.encodable(),
    ensures
        spec_decode(spec_encode(obj, task_group)) == Some((obj@, task_group)),
{
    let data = spec_encode(obj, task_group);
    let nl = obj.name@.len() as int;
    let rl = records_len(obj.properties@);
    let sz = 24 + nl + rl;
    lemma_records_len_nonneg(obj.properties@);
    lemma_enc_records_len(obj.properties@);
    crate::bytes::lemma_pow256_values();
    crate::bytes::lemma_le_bytes_len(sz, 4);
    crate::bytes::lemma_le_bytes_len(nl, 2);
    crate::bytes::lemma_le_bytes_len(24 + nl, 2);
    crate::bytes::lemma_le_bytes_len(obj.handle_port as int, 8);
    crate::bytes::lemma_le_bytes_len(task_group as int, 8);
    assert(data.len() == sz);
    assert(data.subrange(0, 4) =~= le_bytes(sz, 4));
    crate::bytes::lemma_le_roundtrip(sz, 4);
    assert(u32_at(data, 0) == sz);
    assert(data.subrange(4, 6) =~= le_bytes(nl, 2));
    crate::bytes::lemma_le_roundtrip(nl, 2);
    assert(u16_at(data, 4) == nl);
    assert(data.subrange(6, 8) =~= le_bytes(24 + nl, 2));
    crate::bytes::lemma_le_roundtrip(24 + nl, 2);
    assert(u16_at(data, 6) == 24 + nl);
    assert(data.subrange(8, 16) =~= le_bytes(obj.handle_port as int, 8));
    crate::bytes::lemma_le_roundtrip(obj.handle_port as int, 8);
    assert(u64_at(data, 8) == obj.handle_port as int);
    assert(data.subrange(16, 24) =~= le_bytes(task_group as int, 8));
    crate::bytes::lemma_le_roundtrip(task_group as int, 8);
    assert(u64_at(data, 16) == task_group as int);
    assert(data.subrange(24, 24 + nl) =~= obj.name@);
    assert(data.subrange(24 + nl, sz) =~= enc_records(obj.properties@));
    lemma_parse_props_of_enc(data, sz, 24 + nl, obj.properties@, Map::empty());
    lemma_fold_insert_is_pairs_to_map(obj.properties@);
    assert(spec_parse_props(data, sz, 24 + nl, Map::empty()) == Some(obj@.properties));
}


/// Counts the payload bytes the members of a list will take.
fn list_payload_len_exec(l: &Vec<Vec<u8>>) -> (r: usize)
    requires
        list_payload_len(l@) <= 0xFFFF,
    ensures
        r as int == list_payload_len(l@),
{
    let mut sum: usize = 0;
    let mut j: usize = 0;
    let n = l.len();
    proof {
        assert(l@.skip(0) =~= l@);
    }
    while j < n
        invariant
            n == l@.len(),
            j <= n,
            list_payload_len(l@) <= 0xFFFF,
            sum + list_payload_len(l@.skip(j as int)) == list_payload_len(l@),
        decreases n - j,
    {
        proof {
            assert(l@.skip(j as int)[0] == l@[j as int]);
            assert(l@.skip(j as int).skip(1) =~= l@.skip(j + 1));
            lemma_list_payload_len_nonneg(l@.skip(j + 1));
            lemma_list_payload_len_nonneg(l@.skip(j as int));
        }
        sum = sum + l[j].len() + 1;
        j = j + 1;
    }
    proof {
        assert(l@.skip(n as int) =~= Seq::<Vec<u8>>::empty());
    }
    sum
}

/// Computes the wire length of one property record.
fn record_len_exec(key: &Vec<u8>, p: &ObjectProperty) -> (r: usize)
    requires
        record_len(key@, *p) <= 0xFFFF,
    ensures
        r as int == record_len(key@, *p),
{
    proof {
        lemma_prop_payload_len_nonneg(*p);
    }
    let payload: usize = match p {
        ObjectProperty::String(sv) => sv.len() + 1,
        ObjectProperty::Integer(_) => 8,
        ObjectProperty::List(l) => list_payload_len_exec(l),
    };
    5 + key.len() + payload
}

/// Appends the wire form of a list payload.
fn emit_list(v: &mut Vec<u8>, l: &Vec<Vec<u8>>)
    ensures
        final(v)@ == old(v)@ + enc_list(l@),
{
    let ghost base = v@;
    let n = l.len();
    let mut j: usize = 0;
    proof {
        assert(l@.skip(0) =~= l@);
    }
    while j < n
        invariant
            n == l@.len(),
            j <= n,
            v@ + enc_list(l@.skip(j as int)) == base + enc_list(l@),
        decreases n - j,
    {
        let ghost pre = v@;
        proof {
            assert(l@.skip(j as int)[0] == l@[j as int]);
            assert(l@.skip(j as int).skip(1) =~= l@.skip(j + 1));
            assert(enc_list(l@.skip(j as int)) == l@[j as int]@ + seq![0u8] + enc_list(
                l@.skip(j + 1),
            ));
        }
        v.extend_from_slice(l[j].as_slice());
        v.push(0);
        proof {
            assert(v@ =~= pre + l@[j as int]@ + seq![0u8]);
            assert(v@ + enc_list(l@.skip(j + 1)) =~= pre + enc_list(l@.skip(j as int)));
        }
        j = j + 1;
    }
    proof {
        assert(l@.skip(n as int) =~= Seq::<Vec<u8>>::empty());
        assert(v@ + enc_list(l@.skip(n as int)) =~= v@);
    }
}

/// Appends the wire form of one property record.
fn emit_record(v: &mut Vec<u8>, key: &Vec<u8>, p: &ObjectProperty)
    requires
        5 + key@.len() <= 0xFF,
        record_len(key@, *p) <= 0xFFFF,
    ensures
        final(v)@ == old(v)@ + enc_record(key@, *p),
{
    proof {
        lemma_prop_payload_len_nonneg(*p);
        crate::bytes::lemma_pow256_values();
    }
    let ghost base = v@;
    let rl = record_len_exec(key, p);
    crate::bytes::push_le(v, rl as u64, 2);
    let tag: u8 = match p {
        ObjectProperty::String(_) => 0x01,
        ObjectProperty::Integer(_) => 0x02,
        ObjectProperty::List(_) => 0x03,
    };
    v.push(tag);
    v.push((5 + key.len()) as u8);
    v.extend_from_slice(key.as_slice());
    v.push(0);
    let ghost mid = v@;
    proof {
        assert(mid =~= base + le_bytes(record_len(key@, *p), 2) + seq![prop_type_tag(*p)] + seq![
            (5 + key@.len()) as u8,
        ] + key@ + seq![0u8]);
    }
    match p {
        ObjectProperty::String(sv) => {
            v.extend_from_slice(sv.as_slice());
            v.push(0);
            proof {
                assert(v@ =~= mid + (sv@ + seq![0u8]));
            }
        },
        ObjectProperty::Integer(x) => {
            crate::bytes::push_le(v, *x, 8);
        },
        ObjectProperty::List(l) => {
            emit_list(v, l);
        },
    }
    proof {
        assert(v@ =~= base + enc_record(key@, *p));
    }
}

/// Sums the wire lengths of a property table.
fn records_len_total(props: &Vec<(Vec<u8>, ObjectProperty)>) -> (r: u64)
    requires
        records_len(props@) <= 0xFFFF_FFFF,
        forall|i: int|
            0 <= i < props@.len() ==> record_len(#[trigger] props@[i].0@, props@[i].1) <= 0xFFFF,
    ensures
        r as int == records_len(props@),
{
    let mut sum: u64 = 0;
    let n = props.len();
    let mut i: usize = 0;
    proof {
        assert(props@.skip(0) =~= props@);
    }
    while i < n
        invariant
            n == props@.len(),
            i <= n,
            records_len(props@) <= 0xFFFF_FFFF,
            forall|k: int|
                0 <= k < props@.len() ==> record_len(#[trigger] props@[k].0@, props@[k].1)
                    <= 0xFFFF,
            sum + records_len(props@.skip(i as int)) == records_len(props@),
        decreases n - i,
    {
        proof {
            assert(props@.skip(i as int)[0] == props@[i as int]);
            assert(props@.skip(i as int).skip(1) =~= props@.skip(i + 1));
            lemma_records_len_nonneg(props@.skip(i + 1));
            lemma_records_len_nonneg(props@.skip(i as int));
            lemma_prop_payload_len_nonneg(props@[i as int].1);
        }
        let rl = record_len_exec(&props[i].0, &props[i].1);
        sum = sum + rl as u64;
        i = i + 1;
    }
    proof {
        assert(props@.skip(n as int) =~= Seq::<(Vec<u8>, ObjectProperty)>::empty());
    }
    sum
}

impl PMBusObject {
    /// Serializes the object for publication to the given task group;
    /// decoding the result reproduces the object and the task-group id
    /// exactly.
    pub fn serialize(&self, task_group: u64) -> (r: Vec<u8>)
        requires
            self.encodable(),
        ensures
            r@ == spec_encode(*self, task_group),
            spec_decode(r@) == Some((self@, task_group)),
    {
        proof {
            crate::bytes::lemma_pow256_values();
            lemma_records_len_nonneg(self.properties@);
        }
        let mut v: Vec<u8> = Vec::new();
        let name_len = self.name.len();
        let rt = records_len_total(&self.properties);
        let total: u64 = 24 + name_len as u64 + rt;
        crate::bytes::push_le(&mut v, total, 4);
        crate::bytes::push_le(&mut v, name_len as u64, 2);
        crate::bytes::push_le(&mut v, 24 + name_len as u64, 2);
        crate::bytes::push_le(&mut v, self.handle_port, 8);
        crate::bytes::push_le(&mut v, task_group, 8);
        v.extend_from_slice(self.name.as_slice());
        let ghost header = v@;
        proof {
            assert(header =~= le_bytes(total as int, 4) + le_bytes(name_len as int, 2) + le_bytes(
                24 + name_len as int,
                2,
            ) + le_bytes(self.handle_port as int, 8) + le_bytes(task_group as int, 8)
                + self.name@);
            assert(header + enc_records(self.properties@) =~= spec_encode(*self, task_group));
            assert(self.properties@.skip(0) =~= self.properties@);
        }
        let n = self.properties.len();
        let mut i: usize = 0;
        while i < n
            invariant
                n == self.properties@.len(),
                i <= n,
                self.encodable(),
                v@ + enc_records(self.properties@.skip(i as int)) == spec_encode(
                    *self,
                    task_group,
                ),
            decreases n - i,
        {
            let ghost pre = v@;
            proof {
                assert(self.properties@.skip(i as int)[0] == self.properties@[i as int]);
                assert(self.properties@.skip(i as int).skip(1) =~= self.properties@.skip(i + 1));
                assert(enc_records(self.properties@.skip(i as int)) == enc_record(
                    self.properties@[i as int].0@,
                    self.properties@[i as int].1,
                ) + enc_records(self.properties@.skip(i + 1)));
            }
            emit_record(&mut v, &self.properties[i].0, &self.properties[i].1);
            proof {
                assert(v@ + enc_records(self.properties@.skip(i + 1)) =~= pre + enc_records(
                    self.properties@.skip(i as int),
                ));
            }
            i = i + 1;
        }
        proof {
            assert(self.properties@.skip(n as int) =~= Seq::<(Vec<u8>, ObjectProperty)>::empty());
            assert(v@ + enc_records(self.properties@.skip(n as int)) =~= v@);
            lemma_encode_decode_round_trip(*self, task_group);
        }
        v
    }
}

} // verus!
