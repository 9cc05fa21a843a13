//! Laws that relate the resolution of a record to its fields.

use vstd::prelude::*;
use crate::param::{
    lemma_scan_error_kept, resolve_components, scan, spec_resolve, Error, Field, FieldName, Record,
};
use crate::param_type::{is_tuple_shaped, TypeModel};
use crate::reader::spec_read;

verus! {

/// The `name` text of a record whose recognised fields do not repeat.
pub open spec fn declared_name(r: Record) -> Seq<char> {
    match scan(r.fields@) {
        Ok((Some(n), _, _)) => n@,
        _ => Seq::empty(),
    }
}

/// The descriptor that the `type` text of a record reads as.
pub open spec fn declared_type(r: Record) -> Option<TypeModel> {
    match scan(r.fields@) {
        Ok((_, Some(t), _)) => spec_read(t@),
        _ => None,
    }
}

/// The records of the `components` field of a record, or none.
pub open spec fn declared_components(r: Record) -> Seq<Record> {
    match scan(r.fields@) {
        Ok((_, _, Some(c))) => if 0 <= c < r.fields@.len() && r.fields@[c] is Components {
            r.fields@[c]->Components_0@
        } else {
            Seq::empty()
        },
        _ => Seq::empty(),
    }
}

/// `ks` holds, one for one and in order, the resolved types of `cs`.
pub open spec fn resolved_types_of(ks: Seq<TypeModel>, cs: Seq<Record>) -> bool {
    &&& ks.len() == cs.len()
    &&& forall|i: int|
        0 <= i < cs.len() ==> (#[trigger] spec_resolve(cs[i])) is Ok && spec_resolve(cs[i])->Ok_0.1
            == ks[i]
}

/// Two fields that carry the same recognised key.
pub open spec fn same_recognised_key(a: Field, b: Field) -> bool {
    ||| a is Name && b is Name
    ||| a is Type && b is Type
    ||| a is Components && b is Components
}

proof fn lemma_components_each(cs: Seq<Record>)
    requires
        resolve_components(cs) is Ok,
    ensures
        resolved_types_of(resolve_components(cs)->Ok_0, cs),
    decreases cs.len(),
{
    if cs.len() > 0 {
        let pre = cs.subrange(0, cs.len() - 1);
        lemma_components_each(pre);
        let ks = resolve_components(cs)->Ok_0;
        assert forall|i: int| 0 <= i < cs.len() implies (#[trigger] spec_resolve(cs[i])) is Ok
            && spec_resolve(cs[i])->Ok_0.1 == ks[i] by {
            if i < cs.len() - 1 {
                assert(pre[i] == cs[i]);
            }
        }
    }
}

/// Where `scan` records a `components` position, a `components` field stands there.
proof fn lemma_scan_components_position(fs: Seq<Field>)
    requires
        scan(fs) matches Ok((_, _, Some(c))),
    ensures
        0 <= (scan(fs)->Ok_0).2->0 < fs.len(),
        fs[(scan(fs)->Ok_0).2->0] is Components,
    decreases fs.len(),
{
    if !(fs.last() is Components) {
        lemma_scan_components_position(fs.drop_last());
    }
}

/// After a prefix of `k` fields scans without a duplicate, every recognised
/// key in it has its slot filled.
proof fn lemma_scan_slots_filled(fs: Seq<Field>, k: int, i: int)
    requires
        0 <= i < k <= fs.len(),
        scan(fs.subrange(0, k)) is Ok,
    ensures
        ({
            let (n, t, c) = scan(fs.subrange(0, k))->Ok_0;
            &&& fs[i] is Name ==> n is Some
            &&& fs[i] is Type ==> t is Some
            &&& fs[i] is Components ==> c is Some
        }),
    decreases k,
{
    assert(fs.subrange(0, k).drop_last() =~= fs.subrange(0, k - 1));
    if i < k - 1 {
        lemma_scan_slots_filled(fs, k - 1, i);
    }
}

/// A record that resolves, and whose type is not tuple-shaped, resolves to
/// its name and the descriptor that its `type` text reads as.
pub proof fn law_plain_type_passes_through(r: Record)
    requires
        scan(r.fields@) matches Ok((Some(_), Some(_), _)),
        declared_type(r) matches Some(t) && !is_tuple_shaped(t),
    ensures
        spec_resolve(r) == Ok::<_, Error>((declared_name(r), declared_type(r)->Some_0)),
{
}

/// A tuple record that resolves has, as its tuple's fields, the resolved
/// types of its components, one for one and in declared order.
pub proof fn law_tuple_takes_component_types(r: Record)
    requires
        spec_resolve(r) is Ok,
        declared_type(r) matches Some(t) && t is Tuple,
    ensures
        spec_resolve(r)->Ok_0.1 is Tuple,
        resolved_types_of(spec_resolve(r)->Ok_0.1->Tuple_0, declared_components(r)),
{
    lemma_components_each(declared_components(r));
}

/// An array-of-tuple record that resolves is an array of a tuple whose fields
/// are the resolved types of its components, in declared order.
pub proof fn law_array_of_tuple_takes_component_types(r: Record)
    requires
        spec_resolve(r) is Ok,
        declared_type(r) matches Some(TypeModel::Array(inner)) && *inner is Tuple,
    ensures
        spec_resolve(r)->Ok_0.1 matches TypeModel::Array(e) && *e is Tuple && resolved_types_of(
            e->Tuple_0,
            declared_components(r),
        ),
{
    lemma_components_each(declared_components(r));
}

/// A fixed-array-of-tuple record of size `n` that resolves is a fixed array
/// of size `n` of a tuple whose fields are the resolved types of its
/// components, in declared order.
pub proof fn law_fixed_array_of_tuple_takes_component_types(r: Record, n: usize)
    requires
        spec_resolve(r) is Ok,
        declared_type(r) matches Some(TypeModel::FixedArray(inner, m)) && *inner is Tuple && m == n,
    ensures
        spec_resolve(r)->Ok_0.1 matches TypeModel::FixedArray(e, size) && size == n && *e is Tuple
            && resolved_types_of(e->Tuple_0, declared_components(r)),
{
    lemma_components_each(declared_components(r));
}

/// A record in which `name`, `type` or `components` occurs twice fails with
/// `DuplicateField`.
pub proof fn law_repeated_field_fails(r: Record, i: int, j: int)
    requires
        0 <= i < j < r.fields@.len(),
        same_recognised_key(r.fields@[i], r.fields@[j]),
    ensures
        spec_resolve(r) matches Err(Error::DuplicateField(_)),
{
    let fs = r.fields@;
    if scan(fs.subrange(0, j)) is Ok {
        lemma_scan_slots_filled(fs, j, i);
        assert(fs.subrange(0, j + 1).drop_last() =~= fs.subrange(0, j));
        lemma_scan_error_kept(fs, j + 1);
    } else {
        lemma_scan_error_kept(fs, j);
    }
}

/// A record with a name and a tuple-shaped type but no `components` field
/// fails with `MissingField(Components)`.
pub proof fn law_tuple_without_components_fails(r: Record)
    requires
        scan(r.fields@) matches Ok((Some(_), Some(_), _)),
        forall|i: int| 0 <= i < r.fields@.len() ==> !(#[trigger] r.fields@[i] is Components),
        declared_type(r) matches Some(t) && is_tuple_shaped(t),
    ensures
        spec_resolve(r) == Err::<(Seq<char>, TypeModel), _>(Error::MissingField(FieldName::Components)),
{
    if (scan(r.fields@)->Ok_0).2 is Some {
        lemma_scan_components_position(r.fields@);
    }
}

/// Inserting a field of an unrecognised key changes nothing that `scan`
/// gathers but the position of `components`, which still holds the same field.
proof fn lemma_scan_insert_other(fs: Seq<Field>, i: int, key: String)
    requires
        0 <= i <= fs.len(),
    ensures
        ({
            let g = fs.insert(i, Field::Other(key));
            match scan(fs) {
                Err(f) => scan(g) == Err::<(Option<String>, Option<String>, Option<int>), _>(f),
                Ok((n, t, c)) => scan(g) matches Ok((n2, t2, c2)) && n2 == n && t2 == t && (c is None
                    <==> c2 is None) && (c is Some ==> 0 <= c2->0 < g.len() && g[c2->0] == fs[c->0]),
            }
        }),
    decreases fs.len(),
{
    let g = fs.insert(i, Field::Other(key));
    if (scan(fs) is Ok && (scan(fs)->Ok_0).2 is Some) {
        lemma_scan_components_position(fs);
    }
    if i == fs.len() {
        assert(g.drop_last() =~= fs);
    } else {
        let p = fs.drop_last();
        lemma_scan_insert_other(p, i, key);
        assert(g.drop_last() =~= p.insert(i, Field::Other(key)));
        if (scan(p) is Ok && (scan(p)->Ok_0).2 is Some) {
            lemma_scan_components_position(p);
        }
    }
}

/// A field of an unrecognised key, inserted anywhere in a record, changes
/// neither its result nor its error.
pub proof fn law_unrecognised_field_ignored(r: Record, extended: Record, i: int, key: String)
    requires
        0 <= i <= r.fields@.len(),
        extended.fields@ == r.fields@.insert(i, Field::Other(key)),
    ensures
        spec_resolve(extended) == spec_resolve(r),
{
    lemma_scan_insert_other(r.fields@, i, key);
    if (scan(r.fields@) is Ok && (scan(r.fields@)->Ok_0).2 is Some) {
        lemma_scan_components_position(r.fields@);
    }
}

} // verus!
