use table_index::{Column, Index, PositionMap, Table, TableError};

fn users(rows: Vec<Vec<String>>) -> Table {
    Table {
        name: "users".to_string(),
        columns: vec![
            Column {
                name: "id".to_string(),
                dtype: "int".to_string(),
            },
            Column {
                name: "name".to_string(),
                dtype: "string".to_string(),
            },
        ],
        rows,
    }
}

fn row(id: &str, name: &str) -> Vec<String> {
    vec![id.to_string(), name.to_string()]
}

#[test]
fn test_insert() {
    let mut table = users(vec![]);

    table.insert(vec!["1".to_string(), "Alice".to_string()]);
    assert_eq!(table.rows.len(), 1);
    assert_eq!(table.rows[0], vec!["1".to_string(), "Alice".to_string()]);
}

#[test]
fn test_select() {
    let table = users(vec![
        vec!["1".to_string(), "Alice".to_string()],
        vec!["2".to_string(), "Bob".to_string()],
    ]);

    let results = table.select("name", "Alice").unwrap();
    assert_eq!(results.len(), 1);
    assert_eq!(results[0], &vec!["1".to_string(), "Alice".to_string()]);
}

#[test]
fn test_create_index() {
    let table = users(vec![
        vec!["1".to_string(), "Alice".to_string()],
        vec!["2".to_string(), "Bob".to_string()],
    ]);

    let index = table.create_index("name").unwrap();
    assert!(index.index.contains_key("Alice"));
    assert_eq!(*index.index.get("Alice").unwrap(), vec![0]);
}

#[test]
fn test_select_with_index() {
    let table = users(vec![
        vec!["1".to_string(), "Alice".to_string()],
        vec!["2".to_string(), "Bob".to_string()],
    ]);

    let index = table.create_index("name").unwrap();
    let results = table.select_with_index(&index, "Alice");
    assert_eq!(results.len(), 1);
    assert_eq!(results[0], &vec!["1".to_string(), "Alice".to_string()]);
}

#[test]
fn users_scenario_index_maps_each_name() {
    let table = users(vec![row("1", "Alice"), row("2", "Bob")]);
    let index = table.create_index("name").unwrap();
    assert_eq!(index.column_name, "name");
    assert_eq!(index.index.entries().len(), 2);
    assert_eq!(*index.index.get("Alice").unwrap(), vec![0]);
    assert_eq!(*index.index.get("Bob").unwrap(), vec![1]);
    assert_eq!(table.select("name", "Alice").unwrap(), vec![&row("1", "Alice")]);
    assert_eq!(table.select_with_index(&index, "Alice"), vec![&row("1", "Alice")]);
}

#[test]
fn repeated_values_keep_ascending_positions() {
    let table = users(vec![
        row("1", "Alice"),
        row("2", "Bob"),
        row("3", "Alice"),
        row("4", "Carol"),
        row("5", "Alice"),
    ]);
    let index = table.create_index("name").unwrap();
    assert_eq!(index.index.entries().len(), 3);
    assert_eq!(*index.index.get("Alice").unwrap(), vec![0, 2, 4]);
    assert_eq!(*index.index.get("Bob").unwrap(), vec![1]);
    assert_eq!(*index.index.get("Carol").unwrap(), vec![3]);
    assert!(!index.index.contains_key("Dave"));
    assert!(!index.index.contains_key("alice"));
}

#[test]
fn index_lookup_agrees_with_scan() {
    let table = users(vec![
        row("1", "Alice"),
        row("2", "Bob"),
        row("3", "Alice"),
        row("4", "Bob"),
    ]);
    let index = table.create_index("name").unwrap();
    for value in ["Alice", "Bob", "Carol", ""] {
        assert_eq!(
            table.select_with_index(&index, value),
            table.select("name", value).unwrap()
        );
    }
    let by_id = table.create_index("id").unwrap();
    assert_eq!(
        table.select_with_index(&by_id, "3"),
        vec![&row("3", "Alice")]
    );
    assert_eq!(table.select("id", "3").unwrap(), vec![&row("3", "Alice")]);
}

#[test]
fn absent_value_selects_nothing() {
    let table = users(vec![row("1", "Alice"), row("2", "Bob")]);
    let index = table.create_index("name").unwrap();
    assert!(table.select("name", "Zed").unwrap().is_empty());
    assert!(table.select_with_index(&index, "Zed").is_empty());
}

#[test]
fn index_of_empty_table_is_empty() {
    let table = users(vec![]);
    let index = table.create_index("name").unwrap();
    assert_eq!(index.column_name, "name");
    assert!(index.index.entries().is_empty());
    assert!(!index.index.contains_key("Alice"));
    assert!(table.select("name", "Alice").unwrap().is_empty());
}

#[test]
fn unknown_column_is_reported() {
    let table = users(vec![row("1", "Alice")]);
    assert_eq!(table.select("age", "1").unwrap_err(), TableError::ColumnNotFound);
    assert!(matches!(table.create_index("age"), Err(TableError::ColumnNotFound)));
    assert_eq!(table.select("Name", "Alice").unwrap_err(), TableError::ColumnNotFound);
}

#[test]
fn first_column_of_a_name_is_used() {
    let table = Table {
        name: "pairs".to_string(),
        columns: vec![
            Column {
                name: "k".to_string(),
                dtype: "string".to_string(),
            },
            Column {
                name: "k".to_string(),
                dtype: "string".to_string(),
            },
        ],
        rows: vec![row("a", "b"), row("b", "a")],
    };
    assert_eq!(table.select("k", "a").unwrap(), vec![&row("a", "b")]);
    let index = table.create_index("k").unwrap();
    assert_eq!(*index.index.get("a").unwrap(), vec![0]);
    assert_eq!(*index.index.get("b").unwrap(), vec![1]);
}

#[test]
fn insert_appends_at_the_end() {
    let mut table = users(vec![row("1", "Alice")]);
    table.insert(row("2", "Bob"));
    table.insert(row("3", "Alice"));
    assert_eq!(table.rows, vec![row("1", "Alice"), row("2", "Bob"), row("3", "Alice")]);
    assert_eq!(table.name, "users");
    assert_eq!(table.columns.len(), 2);
    let index = table.create_index("name").unwrap();
    assert_eq!(*index.index.get("Alice").unwrap(), vec![0, 2]);
}

#[test]
fn stale_index_still_answers_from_its_snapshot() {
    let mut table = users(vec![row("1", "Alice")]);
    let index = table.create_index("name").unwrap();
    table.insert(row("2", "Alice"));
    assert_eq!(table.select_with_index(&index, "Alice"), vec![&row("1", "Alice")]);
    assert_eq!(table.select("name", "Alice").unwrap().len(), 2);
}

#[test]
fn index_new_and_add_entry() {
    let mut index = Index::new("name");
    assert_eq!(index.column_name, "name");
    assert!(index.index.entries().is_empty());
    index.add_entry("Bob", 3);
    index.add_entry("Alice", 1);
    index.add_entry("Bob", 7);
    assert_eq!(*index.index.get("Bob").unwrap(), vec![3, 7]);
    assert_eq!(*index.index.get("Alice").unwrap(), vec![1]);
    assert!(index.index.get("Carol").is_none());
    assert_eq!(index.index.entries().len(), 2);
}

#[test]
fn position_map_append_and_lookup() {
    let mut map = PositionMap::new();
    assert!(!map.contains_key(""));
    map.append("", 0);
    map.append("x", 5);
    map.append("", 2);
    assert!(map.contains_key(""));
    assert!(map.contains_key("x"));
    assert_eq!(*map.get("").unwrap(), vec![0, 2]);
    assert_eq!(*map.get("x").unwrap(), vec![5]);
    assert!(map.get("y").is_none());
}

#[test]
fn indexes_compare_by_column_and_mapping() {
    let mut a = Index::new("name");
    a.add_entry("Alice", 0);
    a.add_entry("Bob", 1);
    a.add_entry("Alice", 2);
    let mut b = Index::new("name");
    b.add_entry("Bob", 1);
    b.add_entry("Alice", 0);
    b.add_entry("Alice", 2);
    assert!(a == b);

    let table = users(vec![row("1", "Alice"), row("2", "Bob"), row("3", "Alice")]);
    assert!(table.create_index("name").unwrap() == a);

    let mut other_column = Index::new("id");
    other_column.add_entry("Alice", 0);
    other_column.add_entry("Bob", 1);
    other_column.add_entry("Alice", 2);
    assert!(a != other_column);

    let mut other_order = Index::new("name");
    other_order.add_entry("Alice", 2);
    other_order.add_entry("Alice", 0);
    other_order.add_entry("Bob", 1);
    assert!(a != other_order);

    let mut fewer = Index::new("name");
    fewer.add_entry("Alice", 0);
    fewer.add_entry("Alice", 2);
    assert!(a != fewer);
    assert!(fewer != a);
}

#[test]
fn position_maps_compare_by_contents() {
    let mut a = PositionMap::new();
    a.append("x", 1);
    a.append("y", 2);
    let mut b = PositionMap::new();
    b.append("y", 2);
    b.append("x", 1);
    assert!(a.same_as(&b));
    b.append("y", 3);
    assert!(!a.same_as(&b));
    assert!(PositionMap::new().same_as(&PositionMap::new()));
}
