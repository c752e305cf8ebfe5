use ify_controller::json::{json_eq, JsonValue};
use ify_controller::params::ParamMap;

#[test]
fn param_keys_come_out_in_ascending_order() {
    let mut m = ParamMap::new();
    m.insert("zeta".to_string(), JsonValue::Int(1));
    m.insert("alpha".to_string(), JsonValue::Int(2));
    m.insert("mid".to_string(), JsonValue::Int(3));
    m.insert("Alpha".to_string(), JsonValue::Int(4));
    assert_eq!(m.keys(), vec!["Alpha", "alpha", "mid", "zeta"]);
}

#[test]
fn same_contents_list_the_same_way_whatever_the_insertion_order() {
    let mut a = ParamMap::new();
    a.insert("b".to_string(), JsonValue::Int(2));
    a.insert("a".to_string(), JsonValue::Int(1));
    a.insert("c".to_string(), JsonValue::Int(3));
    let mut b = ParamMap::new();
    b.insert("c".to_string(), JsonValue::Int(3));
    b.insert("b".to_string(), JsonValue::Int(0));
    b.insert("a".to_string(), JsonValue::Int(1));
    b.insert("b".to_string(), JsonValue::Int(2));
    assert_eq!(a.keys(), b.keys());
    for k in a.keys() {
        assert!(json_eq(a.get(&k).unwrap(), b.get(&k).unwrap()));
    }
    assert_eq!(b.len(), 3);
}
