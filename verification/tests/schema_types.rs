use etdl_compiler::typeck::{schema_to_ecel_type, EcelType, SchemaNode};

fn node(t: Option<&str>, items: Option<SchemaNode>, has_properties: bool) -> SchemaNode {
    SchemaNode { declared_type: t.map(str::to_string), items: items.map(Box::new), has_properties }
}

#[test]
fn declared_scalar_types_map_to_their_ecel_types() {
    assert!(matches!(schema_to_ecel_type(&node(Some("string"), None, false)), EcelType::String));
    assert!(matches!(schema_to_ecel_type(&node(Some("integer"), None, false)), EcelType::Number));
    assert!(matches!(schema_to_ecel_type(&node(Some("number"), None, false)), EcelType::Number));
    assert!(matches!(schema_to_ecel_type(&node(Some("boolean"), None, false)), EcelType::Bool));
    assert!(matches!(schema_to_ecel_type(&node(Some("null"), None, false)), EcelType::Null));
    assert!(matches!(schema_to_ecel_type(&node(Some("object"), None, false)), EcelType::Object));
}

#[test]
fn array_type_takes_its_items_type() {
    let t = schema_to_ecel_type(&node(Some("array"), Some(node(Some("boolean"), None, false)), false));
    assert!(matches!(t, EcelType::Array(inner) if matches!(*inner, EcelType::Bool)));
    let t = schema_to_ecel_type(&node(Some("array"), None, false));
    assert!(matches!(t, EcelType::Array(inner) if matches!(*inner, EcelType::Unknown)));
}

#[test]
fn schema_without_a_known_type_is_read_from_its_shape() {
    assert!(matches!(schema_to_ecel_type(&node(Some("weird"), None, true)), EcelType::Object));
    assert!(matches!(schema_to_ecel_type(&node(None, None, true)), EcelType::Object));
    let t = schema_to_ecel_type(&node(None, Some(node(Some("string"), None, false)), false));
    assert!(matches!(t, EcelType::Array(inner) if matches!(*inner, EcelType::Unknown)));
    assert!(matches!(schema_to_ecel_type(&node(None, None, false)), EcelType::Unknown));
}
