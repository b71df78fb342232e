use mechaway::json::JsonValue;
use mechaway::lua::{lua_to_json, LuaData};

fn field<'a>(v: &'a JsonValue, k: &str) -> &'a JsonValue {
    match v {
        JsonValue::Object(es) => &es.iter().find(|(key, _)| key == k).unwrap().1,
        _ => panic!("not an object"),
    }
}

#[test]
fn dense_table_becomes_an_array_in_key_order() {
    let t = LuaData::Table(vec![
        (LuaData::Int(2), LuaData::Text("b".to_string())),
        (LuaData::Int(1), LuaData::Int(10)),
    ]);
    match lua_to_json(&t) {
        JsonValue::Array(items) => {
            assert_eq!(items.len(), 2);
            assert!(matches!(items[0], JsonValue::Int(10)));
            assert!(matches!(&items[1], JsonValue::Str(s) if s == "b"));
        }
        _ => panic!("expected an array"),
    }
}

#[test]
fn sparse_or_keyed_table_becomes_an_object() {
    let gap = LuaData::Table(vec![(LuaData::Int(1), LuaData::Bool(true)), (LuaData::Int(3), LuaData::Nil)]);
    let v = lua_to_json(&gap);
    assert!(matches!(field(&v, "1"), JsonValue::Bool(true)));
    assert!(matches!(field(&v, "3"), JsonValue::Null));
    let keyed = LuaData::Table(vec![
        (LuaData::Text("score".to_string()), LuaData::Int(80)),
        (LuaData::Number("2.5".to_string()), LuaData::Number("0.5".to_string())),
        (LuaData::Bool(true), LuaData::Int(1)),
    ]);
    let v = lua_to_json(&keyed);
    assert!(matches!(field(&v, "score"), JsonValue::Int(80)));
    assert!(matches!(field(&v, "2.5"), JsonValue::Float(t) if t == "0.5"));
    match v {
        JsonValue::Object(es) => assert_eq!(es.len(), 2),
        _ => panic!("expected an object"),
    }
}

#[test]
fn empty_table_is_an_empty_object_and_scalars_map_directly() {
    assert!(matches!(lua_to_json(&LuaData::Table(vec![])), JsonValue::Object(ref es) if es.is_empty()));
    assert!(matches!(lua_to_json(&LuaData::Nil), JsonValue::Null));
    assert!(matches!(lua_to_json(&LuaData::Other), JsonValue::Null));
    assert!(matches!(lua_to_json(&LuaData::Int(-4)), JsonValue::Int(-4)));
    let nested = LuaData::Table(vec![(
        LuaData::Int(1),
        LuaData::Table(vec![(LuaData::Text("a".to_string()), LuaData::Int(1))]),
    )]);
    match lua_to_json(&nested) {
        JsonValue::Array(items) => assert!(matches!(field(&items[0], "a"), JsonValue::Int(1))),
        _ => panic!("expected an array"),
    }
}
