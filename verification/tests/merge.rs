use configer::domain::{merge_tables, Node, Table};

#[test]
fn test_merge_tables() {
    let mut table_a: Table = Table::new();
    table_a.insert("io".to_string(), Node::Nested({
        let mut inner_table = Table::new();
        inner_table.insert(
            "github".to_string(),
            Node::Array(vec![Node::Int32(1), Node::Int32(3)]),
        );
        inner_table
    }));
    let pi = std::f32::consts::PI as f64;
    table_a.insert("replaced".to_string(), Node::Float64(pi.to_bits()));

    let mut table_b: Table = Table::new();

    table_b.insert("io".to_string(), Node::Nested({
        let mut inner_table = Table::new();
        inner_table.insert(
            "github".to_string(),
            Node::Array(vec![Node::Int32(2), Node::Int32(4)]),
        );
        inner_table
    }));
    table_b.insert("hello".to_string(), Node::Nested({
        let mut inner_table = Table::new();
        inner_table.insert(
            "world".to_string(),
            Node::Array(vec![Node::Int32(2), Node::Int32(4)]),
        );
        inner_table
    }));

    let seed = 1_710_265_983_000_u64;
    table_b.insert("replaced".to_string(), Node::IntU64(seed));

    let merged_table = merge_tables(table_a, table_b);

    // Destination entries keep their positions; new source keys are appended.
    let mut table_sentinel: Table = Table::new();
    table_sentinel.insert("io".to_string(), Node::Nested({
        let mut inner_table = Table::new();
        inner_table.insert(
            "github".to_string(),
            Node::Array(vec![
                Node::Int32(1),
                Node::Int32(3),
                Node::Int32(2),
                Node::Int32(4),
            ]),
        );
        inner_table
    }));
    table_sentinel.insert("replaced".to_string(), Node::IntU64(seed));
    table_sentinel.insert("hello".to_string(), Node::Nested({
        let mut inner_table = Table::new();
        inner_table.insert(
            "world".to_string(),
            Node::Array(vec![Node::Int32(2), Node::Int32(4)]),
        );
        inner_table
    }));

    assert_eq!(merged_table, table_sentinel);
}

#[test]
fn test_merge_empty_source_is_identity() {
    let mut table: Table = Table::new();
    table.insert("a".to_string(), Node::Int32(1));
    table.insert("b".to_string(), Node::Text("x".to_string()));

    let mut sentinel: Table = Table::new();
    sentinel.insert("a".to_string(), Node::Int32(1));
    sentinel.insert("b".to_string(), Node::Text("x".to_string()));

    let merged = merge_tables(table, Table::new());
    assert_eq!(merged, sentinel);
}

#[test]
fn test_merge_nested_tables_recursively() {
    let mut dst = Table::new();
    dst.insert("a".to_string(), Node::Nested({
        let mut t = Table::new();
        t.insert("x".to_string(), Node::Int32(1));
        t
    }));

    let mut src = Table::new();
    src.insert("a".to_string(), Node::Nested({
        let mut t = Table::new();
        t.insert("y".to_string(), Node::Int32(2));
        t
    }));

    let merged = merge_tables(dst, src);

    let mut sentinel = Table::new();
    sentinel.insert("a".to_string(), Node::Nested({
        let mut t = Table::new();
        t.insert("x".to_string(), Node::Int32(1));
        t.insert("y".to_string(), Node::Int32(2));
        t
    }));

    assert_eq!(merged, sentinel);
}

#[test]
fn test_merge_sequences_concatenate() {
    let mut dst = Table::new();
    dst.insert("a".to_string(), Node::Array(vec![Node::Int32(1), Node::Int32(3)]));

    let mut src = Table::new();
    src.insert("a".to_string(), Node::Array(vec![Node::Int32(2), Node::Int32(4)]));

    let merged = merge_tables(dst, src);

    let mut sentinel = Table::new();
    sentinel.insert(
        "a".to_string(),
        Node::Array(vec![Node::Int32(1), Node::Int32(3), Node::Int32(2), Node::Int32(4)]),
    );

    assert_eq!(merged, sentinel);
}

#[test]
fn test_merge_type_mismatch_replaces() {
    let x = 2.718281828_f64;
    let mut dst = Table::new();
    dst.insert("a".to_string(), Node::Float64(x.to_bits()));

    let y = 9527_u64;
    let mut src = Table::new();
    src.insert("a".to_string(), Node::IntU64(y));

    let merged = merge_tables(dst, src);

    let mut sentinel = Table::new();
    sentinel.insert("a".to_string(), Node::IntU64(y));

    assert_eq!(merged, sentinel);
}

#[test]
fn test_merge_keeps_destination_only_keys() {
    let mut dst = Table::new();
    dst.insert("kept".to_string(), Node::Boolean(true));

    let mut src = Table::new();
    src.insert("added".to_string(), Node::Boolean(false));

    let merged = merge_tables(dst, src);

    let mut sentinel = Table::new();
    sentinel.insert("kept".to_string(), Node::Boolean(true));
    sentinel.insert("added".to_string(), Node::Boolean(false));

    assert_eq!(merged, sentinel);
}

#[test]
fn test_merge_is_not_commutative() {
    let mut a = Table::new();
    a.insert("k".to_string(), Node::Int32(1));
    let mut a2 = Table::new();
    a2.insert("k".to_string(), Node::Int32(1));

    let mut b = Table::new();
    b.insert("k".to_string(), Node::Int32(2));
    let mut b2 = Table::new();
    b2.insert("k".to_string(), Node::Int32(2));

    let ab = merge_tables(a, b);
    let ba = merge_tables(b2, a2);
    assert_ne!(ab, ba);
}

#[test]
fn test_table_insert_replaces_equal_key() {
    let mut table = Table::new();
    table.insert("k".to_string(), Node::Int32(1));
    table.insert("k".to_string(), Node::Int32(2));
    assert_eq!(table.len(), 1);
    assert_eq!(table.get("k"), Some(&Node::Int32(2)));
    assert!(table.contains_key("k"));
    assert!(!table.contains_key("missing"));
    assert_eq!(table.get("missing"), None);
}

#[test]
fn test_node_default_is_absent() {
    assert_eq!(Node::default(), Node::Absent);
}

#[test]
fn test_node_from_conversions() {
    assert_eq!(Node::from(true), Node::Boolean(true));
    assert_eq!(Node::from(1_u32), Node::IntU32(1));
    assert_eq!(Node::from(2_u64), Node::IntU64(2));
    assert_eq!(Node::from(3_u128), Node::IntU128(3));
    assert_eq!(Node::from(4_i32), Node::Int32(4));
    assert_eq!(Node::from(5_i64), Node::Int64(5));
    assert_eq!(Node::from(6_i128), Node::Int128(6));
    assert_eq!(Node::from("s"), Node::Text("s".to_string()));
    assert_eq!(Node::from(String::from("t")), Node::Text("t".to_string()));
}
