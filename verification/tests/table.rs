use cloud_cost::table::NameTable;

fn key(name: &str) -> String {
    name.to_string()
}

#[test]
fn a_new_table_is_empty() {
    let table: NameTable<i64> = NameTable::new();
    assert_eq!(table.len(), 0);
    assert_eq!(table.find(&key("a")), None);
    assert_eq!(table.get(&key("a")), None);
}

#[test]
fn names_keep_the_order_in_which_they_were_entered() {
    let mut table = NameTable::new();
    table.insert(key("b"), 2);
    table.insert(key("a"), 1);
    table.insert(key("c"), 3);
    assert_eq!(table.len(), 3);
    assert_eq!(table.name_at(0), "b");
    assert_eq!(table.name_at(1), "a");
    assert_eq!(table.name_at(2), "c");
    assert_eq!(*table.value_at(0), 2);
    assert_eq!(*table.value_at(1), 1);
    assert_eq!(*table.value_at(2), 3);
    assert_eq!(table.find(&key("a")), Some(1));
    assert_eq!(table.find(&key("d")), None);
}

#[test]
fn a_name_entered_again_keeps_its_place_and_takes_the_new_value() {
    let mut table = NameTable::new();
    table.insert(key("a"), 1);
    table.insert(key("b"), 2);
    table.insert(key("a"), 10);
    assert_eq!(table.len(), 2);
    assert_eq!(table.name_at(0), "a");
    assert_eq!(table.get(&key("a")), Some(&10));
    assert_eq!(table.get(&key("b")), Some(&2));
}

#[test]
fn a_value_is_replaced_at_its_place() {
    let mut table = NameTable::new();
    table.insert(key("a"), 1);
    table.insert(key("b"), 2);
    table.set_value_at(1, 20);
    assert_eq!(table.get(&key("a")), Some(&1));
    assert_eq!(table.get(&key("b")), Some(&20));
    assert_eq!(table.name_at(1), "b");
}

#[test]
fn a_clone_holds_the_same_entries() {
    let mut table = NameTable::new();
    table.insert(key("a"), 1);
    table.insert(key("b"), 2);
    let copy = table.clone();
    table.insert(key("a"), 5);
    assert_eq!(copy.len(), 2);
    assert_eq!(copy.get(&key("a")), Some(&1));
    assert_eq!(copy.get(&key("b")), Some(&2));
    assert_eq!(copy.name_at(0), "a");
}
