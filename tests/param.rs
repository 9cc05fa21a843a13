use ethabi::{read_param_type, resolve, Error, Field, FieldName, Param, ParamType, Record};
use serde_json::Value;

/// Builds a record from a JSON object, keeping its keys in the order that
/// the parsed object yields them.
fn record_of(v: &Value) -> Record {
    let obj = v.as_object().unwrap();
    let mut fields = Vec::new();
    for (key, val) in obj {
        let field = match key.as_str() {
            "name" => Field::Name(val.as_str().unwrap().to_owned()),
            "type" => Field::Type(val.as_str().unwrap().to_owned()),
            "components" => Field::Components(val.as_array().unwrap().iter().map(record_of).collect()),
            other => Field::Other(other.to_owned()),
        };
        fields.push(field);
    }
    Record { fields }
}

fn from_json(s: &str) -> Result<Param, Error> {
    let v: Value = serde_json::from_str(s).unwrap();
    resolve(&record_of(&v))
}

fn name(s: &str) -> Field {
    Field::Name(s.to_owned())
}

fn ty(s: &str) -> Field {
    Field::Type(s.to_owned())
}

fn leaf(n: &str, t: &str) -> Record {
    Record { fields: vec![name(n), ty(t)] }
}

#[test]
fn param_deserialization() {
    let s = r#"{
			"name": "foo",
			"type": "address"
		}"#;

    let deserialized: Param = from_json(s).unwrap();

    assert_eq!(deserialized, Param { name: "foo".to_owned(), kind: ParamType::Address });
}

#[test]
fn param_tuple_deserialization() {
    let s = r#"{
			"name": "foo",
			"type": "tuple",
			"components": [
				{
					"name": "amount",
					"type": "uint48"
				},
				{
					"name": "things",
					"type": "tuple",
					"components": [
						{
							"name": "baseTupleParam",
							"type": "address"
						}
					]
				}
			]
		}"#;

    let deserialized: Param = from_json(s).unwrap();

    assert_eq!(
        deserialized,
        Param {
            name: "foo".to_owned(),
            kind: ParamType::Tuple(vec![ParamType::Uint(48), ParamType::Tuple(vec![ParamType::Address])]),
        }
    );
}

#[test]
fn param_tuple_array_deserialization() {
    let s = r#"{
			"name": "foo",
			"type": "tuple[]",
			"components": [
				{
					"name": "amount",
					"type": "uint48"
				},
				{
					"name": "to",
					"type": "address"
				},
				{
					"name": "from",
					"type": "address"
				}
			]
		}"#;

    let deserialized: Param = from_json(s).unwrap();

    assert_eq!(
        deserialized,
        Param {
            name: "foo".to_owned(),
            kind: ParamType::Array(Box::new(ParamType::Tuple(vec![
                ParamType::Uint(48),
                ParamType::Address,
                ParamType::Address
            ]))),
        }
    );
}

#[test]
fn param_tuple_fixed_array_deserialization() {
    let s = r#"{
			"name": "foo",
			"type": "tuple[2]",
			"components": [
				{
					"name": "amount",
					"type": "uint48"
				},
				{
					"name": "to",
					"type": "address"
				},
				{
					"name": "from",
					"type": "address"
				}
			]
		}"#;

    let deserialized: Param = from_json(s).unwrap();

    assert_eq!(
        deserialized,
        Param {
            name: "foo".to_owned(),
            kind: ParamType::FixedArray(
                Box::new(ParamType::Tuple(vec![ParamType::Uint(48), ParamType::Address, ParamType::Address])),
                2
            ),
        }
    );
}

#[test]
fn new_keeps_name_and_kind() {
    let p = Param::new("amount", ParamType::Uint(48));
    assert_eq!(p.name, "amount");
    assert_eq!(p.kind, ParamType::Uint(48));
}

#[test]
fn plain_type_passes_through() {
    let p = resolve(&leaf("x", "bytes32[]")).unwrap();
    assert_eq!(p, Param { name: "x".to_owned(), kind: ParamType::Array(Box::new(ParamType::FixedBytes(32))) });
}

#[test]
fn stray_components_are_not_consulted() {
    let bad = Record { fields: vec![name("y"), ty("nonsense")] };
    let r = Record { fields: vec![name("x"), ty("address"), Field::Components(vec![bad])] };
    assert_eq!(resolve(&r).unwrap(), Param { name: "x".to_owned(), kind: ParamType::Address });
}

#[test]
fn array_of_non_tuple_passes_through() {
    let r = Record { fields: vec![name("x"), ty("uint[3]"), Field::Components(vec![leaf("a", "bool")])] };
    assert_eq!(
        resolve(&r).unwrap(),
        Param { name: "x".to_owned(), kind: ParamType::FixedArray(Box::new(ParamType::Uint(256)), 3) }
    );
}

#[test]
fn component_order_is_kept() {
    let r = Record {
        fields: vec![
            ty("tuple"),
            Field::Components(vec![leaf("a", "bool"), leaf("b", "string"), leaf("c", "int8")]),
            name("t"),
        ],
    };
    assert_eq!(
        resolve(&r).unwrap().kind,
        ParamType::Tuple(vec![ParamType::Bool, ParamType::String, ParamType::Int(8)])
    );
}

#[test]
fn empty_components_give_empty_tuple() {
    let r = Record { fields: vec![name("t"), ty("tuple"), Field::Components(vec![])] };
    assert_eq!(resolve(&r).unwrap().kind, ParamType::Tuple(vec![]));
}

#[test]
fn duplicate_name_fails() {
    let r = Record { fields: vec![name("a"), ty("address"), name("b")] };
    assert_eq!(resolve(&r), Err(Error::DuplicateField(FieldName::Name)));
}

#[test]
fn duplicate_type_fails() {
    let r = Record { fields: vec![ty("address"), name("a"), ty("address")] };
    assert_eq!(resolve(&r), Err(Error::DuplicateField(FieldName::Type)));
}

#[test]
fn duplicate_components_fails() {
    let r = Record {
        fields: vec![name("a"), ty("tuple"), Field::Components(vec![]), Field::Components(vec![])],
    };
    assert_eq!(resolve(&r), Err(Error::DuplicateField(FieldName::Components)));
}

#[test]
fn first_duplicate_in_stream_is_reported() {
    let r = Record { fields: vec![ty("bool"), name("a"), name("b"), ty("bool")] };
    assert_eq!(resolve(&r), Err(Error::DuplicateField(FieldName::Name)));
}

#[test]
fn duplicate_beats_missing_field() {
    let r = Record { fields: vec![ty("bool"), ty("bool")] };
    assert_eq!(resolve(&r), Err(Error::DuplicateField(FieldName::Type)));
}

#[test]
fn missing_name_fails() {
    let r = Record { fields: vec![ty("address")] };
    assert_eq!(resolve(&r), Err(Error::MissingField(FieldName::Name)));
}

#[test]
fn missing_type_fails() {
    let r = Record { fields: vec![name("a")] };
    assert_eq!(resolve(&r), Err(Error::MissingField(FieldName::Type)));
}

#[test]
fn empty_record_misses_name() {
    let r = Record { fields: vec![] };
    assert_eq!(resolve(&r), Err(Error::MissingField(FieldName::Name)));
}

#[test]
fn tuple_without_components_fails() {
    for t in ["tuple", "tuple[]", "tuple[4]"] {
        let r = Record { fields: vec![name("a"), ty(t)] };
        assert_eq!(resolve(&r), Err(Error::MissingField(FieldName::Components)));
    }
}

#[test]
fn invalid_type_fails() {
    let r = Record { fields: vec![name("a"), ty("uint2x")] };
    assert_eq!(resolve(&r), Err(Error::InvalidType("uint2x".to_owned())));
}

#[test]
fn component_error_is_passed_on_unchanged() {
    let r = Record {
        fields: vec![
            name("a"),
            ty("tuple"),
            Field::Components(vec![leaf("x", "bool"), Record { fields: vec![name("y")] }, leaf("z", "wrong")]),
        ],
    };
    assert_eq!(resolve(&r), Err(Error::MissingField(FieldName::Type)));
}

#[test]
fn unrecognised_fields_are_ignored() {
    let plain = from_json(r#"{"name":"foo","type":"tuple[2]","components":[{"name":"a","type":"bool"}]}"#);
    let extra = from_json(
        r#"{"indexed":true,"name":"foo","internalType":"struct S[2]","type":"tuple[2]","components":[{"name":"a","x":1,"type":"bool"}]}"#,
    );
    assert_eq!(plain, extra);
    assert!(plain.is_ok());
}

#[test]
fn reads_elementary_names() {
    assert_eq!(read_param_type("address"), Some(ParamType::Address));
    assert_eq!(read_param_type("bytes"), Some(ParamType::Bytes));
    assert_eq!(read_param_type("bool"), Some(ParamType::Bool));
    assert_eq!(read_param_type("string"), Some(ParamType::String));
    assert_eq!(read_param_type("int"), Some(ParamType::Int(256)));
    assert_eq!(read_param_type("uint"), Some(ParamType::Uint(256)));
    assert_eq!(read_param_type("tuple"), Some(ParamType::Tuple(vec![])));
    assert_eq!(read_param_type("int16"), Some(ParamType::Int(16)));
    assert_eq!(read_param_type("uint48"), Some(ParamType::Uint(48)));
    assert_eq!(read_param_type("bytes32"), Some(ParamType::FixedBytes(32)));
}

#[test]
fn reads_array_suffixes() {
    assert_eq!(read_param_type("address[]"), Some(ParamType::Array(Box::new(ParamType::Address))));
    assert_eq!(
        read_param_type("tuple[][2]"),
        Some(ParamType::FixedArray(Box::new(ParamType::Array(Box::new(ParamType::Tuple(vec![])))), 2))
    );
    assert_eq!(
        read_param_type("bool[10][]"),
        Some(ParamType::Array(Box::new(ParamType::FixedArray(Box::new(ParamType::Bool), 10))))
    );
}

#[test]
fn rejects_malformed_names() {
    assert_eq!(read_param_type(""), None);
    assert_eq!(read_param_type("addresss"), None);
    assert_eq!(read_param_type("uintx"), None);
    assert_eq!(read_param_type("bool]"), None);
    assert_eq!(read_param_type("[]"), None);
    assert_eq!(read_param_type("bool[x]"), None);
    assert_eq!(read_param_type("bool[99999999999999999999999]"), None);
}

#[test]
fn from_pair_keeps_name_and_kind() {
    let p = Param::from(("to", ParamType::Address));
    assert_eq!(p, Param::new("to", ParamType::Address));
}

#[test]
fn clone_copies_nested_type() {
    let t = ParamType::FixedArray(Box::new(ParamType::Tuple(vec![ParamType::Uint(48), ParamType::Bytes])), 2);
    let p = Param::new("foo", t);
    assert_eq!(p.clone(), p);
}
