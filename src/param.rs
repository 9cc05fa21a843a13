//! Parameters, and their resolution from interface-description records.

use vstd::prelude::*;
use crate::param_type::{is_tuple_shaped, models_of, with_tuple_fields, ParamType, TypeModel};
use crate::reader::{read_param_type, spec_read};

verus! {

/// A function parameter: a name and a fully resolved type.
#[derive(Debug, Clone, PartialEq, Eq)]
pub struct Param {
    /// Param name.
    pub name: String,
    /// Param type.
    pub kind: ParamType,
}

impl Param {
    /// Builds a parameter from a name and a type.
    pub fn new(new_name: &str, kind: ParamType) -> (r: Param)
        ensures
            r.name@ == new_name@,
            r.kind == kind,
    {
        Param { name: new_name.to_owned(), kind }
    }
}

impl<'a> From<(&'a str, ParamType)> for Param {
    fn from(param: (&'a str, ParamType)) -> (r: Param)
        ensures
            r.name@ == param.0@,
            r.kind == param.1,
    {
        Param::new(param.0, param.1)
    }
}

// A `String` cannot be built in spec code, so `from` is specified by the
// `ensures` of its impl above rather than by `from_spec`.
impl<'a> vstd::std_specs::convert::FromSpecImpl<(&'a str, ParamType)> for Param {
    open spec fn obeys_from_spec() -> bool {
        false
    }

    open spec fn from_spec(param: (&'a str, ParamType)) -> Param {
        arbitrary()
    }
}

/// One of the three fields that a record recognises.
#[derive(Debug, Clone, Copy, PartialEq, Eq, Structural)]
pub enum FieldName {
    Name,
    Type,
    Components,
}

/// One key/value pair of a record, as the reader of the record's text
/// delivered it.
#[derive(Debug)]
pub enum Field {
    /// `name`, with its text.
    Name(String),
    /// `type`, with the descriptor's text.
    Type(String),
    /// `components`, with the nested records in declared order.
    Components(Vec<Record>),
    /// Any other key; its value is discarded.
    Other(String),
}

/// A raw parameter record: its key/value pairs in stream order. Keys may
/// repeat.
#[derive(Debug)]
pub struct Record {
    pub fields: Vec<Field>,
}

/// Why a record does not resolve.
#[derive(Debug, PartialEq, Eq)]
pub enum Error {
    /// A recognised field occurs a second time.
    DuplicateField(FieldName),
    /// A required field is absent.
    MissingField(FieldName),
    /// The `type` text names no type descriptor.
    InvalidType(String),
}

/// What the stream of fields has gathered: the `name` text, the `type` text
/// and the position of the `components` field; or the first recognised field
/// that occurs twice.
pub open spec fn scan(fs: Seq<Field>) -> Result<(Option<String>, Option<String>, Option<int>), FieldName>
    decreases fs.len(),
{
    if fs.len() == 0 {
        Ok((None, None, None))
    } else {
        match scan(fs.drop_last()) {
            Err(f) => Err(f),
            Ok((n, t, c)) => match fs.last() {
                Field::Name(s) => if n is Some {
                    Err(FieldName::Name)
                } else {
                    Ok((Some(s), t, c))
                },
                Field::Type(s) => if t is Some {
                    Err(FieldName::Type)
                } else {
                    Ok((n, Some(s), c))
                },
                Field::Components(_) => if c is Some {
                    Err(FieldName::Components)
                } else {
                    Ok((n, t, Some(fs.len() - 1)))
                },
                Field::Other(_) => Ok((n, t, c)),
            },
        }
    }
}

/// The outcome of resolving a record: its name and resolved type, or the error.
pub open spec fn spec_resolve(r: Record) -> Result<(Seq<char>, TypeModel), Error>
    decreases r,
{
    let fs = r.fields@;
    match scan(fs) {
        Err(f) => Err(Error::DuplicateField(f)),
        Ok((n, t, c)) => {
            if n is None {
                Err(Error::MissingField(FieldName::Name))
            } else if t is None {
                Err(Error::MissingField(FieldName::Type))
            } else {
                match spec_read(t->0@) {
                    None => Err(Error::InvalidType(t->0)),
                    Some(parsed) => {
                        if !is_tuple_shaped(parsed) {
                            Ok((n->0@, parsed))
                        } else if c is Some && 0 <= c->0 < fs.len() && fs[c->0] is Components {
                            // `scan` records only positions of `components`
                            // fields; the bounds keep the recursion visibly
                            // structural.
                            match resolve_components(fs[c->0]->Components_0@) {
                                Err(e) => Err(e),
                                Ok(ks) => Ok((n->0@, with_tuple_fields(parsed, ks))),
                            }
                        } else {
                            Err(Error::MissingField(FieldName::Components))
                        }
                    },
                }
            }
        },
    }
}

/// The resolved types of component records in declared order, or the error
/// of the first that fails.
pub open spec fn resolve_components(cs: Seq<Record>) -> Result<Seq<TypeModel>, Error>
    decreases cs,
{
    if cs.len() == 0 {
        Ok(Seq::empty())
    } else {
        match resolve_components(cs.subrange(0, cs.len() - 1)) {
            Err(e) => Err(e),
            Ok(ks) => match spec_resolve(cs[cs.len() - 1]) {
                Err(e) => Err(e),
                Ok((_, k)) => Ok(ks.push(k)),
            },
        }
    }
}

/// `scan` keeps the duplicate that a prefix of the stream holds.
pub(crate) proof fn lemma_scan_error_kept(fs: Seq<Field>, k: int)
    requires
        0 <= k <= fs.len(),
        scan(fs.subrange(0, k)) is Err,
    ensures
        scan(fs) == scan(fs.subrange(0, k)),
    decreases fs.len() - k,
{
    if k < fs.len() {
        assert(fs.subrange(0, k + 1).drop_last() =~= fs.subrange(0, k));
        lemma_scan_error_kept(fs, k + 1);
    } else {
        assert(fs.subrange(0, k) =~= fs);
    }
}

/// `resolve_components` keeps the first error of a prefix.
proof fn lemma_components_error_kept(cs: Seq<Record>, k: int)
    requires
        0 <= k <= cs.len(),
        resolve_components(cs.subrange(0, k)) is Err,
    ensures
        resolve_components(cs) == resolve_components(cs.subrange(0, k)),
    decreases cs.len() - k,
{
    if k < cs.len() {
        assert(cs.subrange(0, k + 1).subrange(0, k) =~= cs.subrange(0, k));
        lemma_components_error_kept(cs, k + 1);
    } else {
        assert(cs.subrange(0, k) =~= cs);
    }
}

pub open spec fn deref_text(t: Option<&String>) -> Option<String> {
    match t {
        Some(s) => Some(*s),
        None => None,
    }
}

/// The outcome that a result of `resolve` stands for.
pub open spec fn resolved(res: Result<Param, Error>) -> Result<(Seq<char>, TypeModel), Error> {
    match res {
        Ok(p) => Ok((p.name@, p.kind.model())),
        Err(e) => Err(e),
    }
}

/// Resolves a parameter record. Fields are taken in stream order; the first
/// recognised field that occurs twice fails with `DuplicateField`. Then
/// `name` and `type` must be present, and `type` must name a descriptor.
/// Where that descriptor is tuple-shaped, `components` must be present, and
/// the resolved types of its records, in declared order, become the tuple's
/// fields; the first component that fails gives its error unchanged.
/// Otherwise the descriptor is the parameter's type and `components` is not
/// consulted. Unrecognised keys are ignored.
pub fn resolve(record: &Record) -> (res: Result<Param, Error>)
    ensures
        resolved(res) == spec_resolve(*record),
    decreases record,
{
    let ghost fs = record.fields@;
    let mut name: Option<&String> = None;
    let mut ty: Option<&String> = None;
    let mut comps: Option<&Vec<Record>> = None;
    let ghost mut cpos: Option<int> = None;
    let mut i: usize = 0;
    while i < record.fields.len()
        invariant
            fs == record.fields@,
            i <= fs.len(),
            scan(fs.subrange(0, i as int)) == Ok::<_, FieldName>((deref_text(name), deref_text(ty), cpos)),
            cpos is Some <==> comps is Some,
            cpos is Some ==> 0 <= cpos->0 < fs.len() && fs[cpos->0] == Field::Components(
                *comps->0,
            ),
        decreases fs.len() - i,
    {
        assert(fs.subrange(0, i + 1).drop_last() =~= fs.subrange(0, i as int));
        match &record.fields[i] {
            Field::Name(s) => {
                if name.is_some() {
                    proof {
                        lemma_scan_error_kept(fs, i + 1);
                    }
                    return Err(Error::DuplicateField(FieldName::Name));
                }
                name = Some(s);
            },
            Field::Type(s) => {
                if ty.is_some() {
                    proof {
                        lemma_scan_error_kept(fs, i + 1);
                    }
                    return Err(Error::DuplicateField(FieldName::Type));
                }
                ty = Some(s);
            },
            Field::Components(v) => {
                if comps.is_some() {
                    proof {
                        lemma_scan_error_kept(fs, i + 1);
                    }
                    return Err(Error::DuplicateField(FieldName::Components));
                }
                comps = Some(v);
                proof {
                    cpos = Some(i as int);
                }
            },
            Field::Other(_) => {},
        }
        i = i + 1;
    }
    assert(fs.subrange(0, i as int) =~= fs);
    let name = match name {
        Some(n) => n,
        None => {
            return Err(Error::MissingField(FieldName::Name));
        },
    };
    let ty = match ty {
        Some(t) => t,
        None => {
            return Err(Error::MissingField(FieldName::Type));
        },
    };
    let parsed = match read_param_type(ty.as_str()) {
        Some(p) => p,
        None => {
            return Err(Error::InvalidType(ty.clone()));
        },
    };
    let shaped = match &parsed {
        ParamType::Tuple(_) => true,
        ParamType::Array(inner) => inner.is_tuple(),
        ParamType::FixedArray(inner, _) => inner.is_tuple(),
        _ => false,
    };
    if !shaped {
        return Ok(Param { name: name.clone(), kind: parsed });
    }
    let comps = match comps {
        Some(c) => c,
        None => {
            return Err(Error::MissingField(FieldName::Components));
        },
    };
    let ghost cs = comps@;
    assert(scan(fs) == Ok::<_, FieldName>((Some(*name), Some(*ty), cpos)));
    assert(fs[cpos->0]->Components_0@ == cs);
    let mut ks: Vec<ParamType> = Vec::new();
    let mut k: usize = 0;
    assert(cs.subrange(0, 0) =~= Seq::<Record>::empty());
    assert(models_of(ks@) =~= Seq::<TypeModel>::empty());
    while k < comps.len()
        invariant
            cs == comps@,
            cpos is Some && 0 <= cpos->0 < fs.len() && fs[cpos->0] == Field::Components(*comps),
            fs == record.fields@,
            scan(fs) == Ok::<_, FieldName>((Some(*name), Some(*ty), cpos)),
            spec_read(ty@) == Some(parsed.model()),
            is_tuple_shaped(parsed.model()),
            k <= cs.len(),
            ks@.len() == k,
            resolve_components(cs.subrange(0, k as int)) == Ok::<_, Error>(models_of(ks@)),
        decreases cs.len() - k,
    {
        assert(cs.subrange(0, k + 1).subrange(0, k as int) =~= cs.subrange(0, k as int));
        assert(cs.subrange(0, k + 1)[k as int] == cs[k as int]);
        assert(decreases_to!(*record => fs[cpos->0]));
        assert(decreases_to!(fs[cpos->0] => fs[cpos->0]->Components_0));
        assert(decreases_to!(*comps => comps@));
        assert(decreases_to!(cs => cs[k as int]));
        match resolve(&comps[k]) {
            Err(e) => {
                proof {
                    lemma_components_error_kept(cs, k + 1);
                }
                return Err(e);
            },
            Ok(p) => {
                let ghost before = ks@;
                ks.push(p.kind);
                assert(models_of(ks@) =~= models_of(before).push(ks@[k as int].model()));
            },
        }
        k = k + 1;
    }
    assert(cs.subrange(0, k as int) =~= cs);
    let ghost fields = models_of(ks@);
    let tuple = ParamType::Tuple(ks);
    assert(tuple.model() == TypeModel::Tuple(fields));
    let kind = match parsed {
        ParamType::Array(_) => ParamType::Array(Box::new(tuple)),
        ParamType::FixedArray(_, size) => ParamType::FixedArray(Box::new(tuple), size),
        _ => tuple,
    };
    Ok(Param { name: name.clone(), kind })
}

} // verus!
